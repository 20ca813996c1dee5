# roust

A Windows packet router with rule-based NIC routing (WinDivert), its
management HTTP API, per-app NIC binds (WFP), DNS exceptions (NRPT) and
hosts-file overrides.

The rule model, validation, hosts-file rewriting, route planning, packet
header edits and the decisions around them are written in Verus and proved
against their contracts; the programs around them (Windows APIs, files,
HTTP, the service) are ordinary Rust.

## Layout

- `src/` — the verified library (crate `roust`):
  - `text`, `ipv4`, `cidr`, `mac`, `paths`, `lists` — text, address, CIDR
    and MAC handling;
  - `config` (target/destination rules), `rewrite` (CIDR → rewrite-target
    rules), `tables`, `interfaces`, `routes`, `packet`, `windivert` — rule
    checking and compilation against the host's adapters, route plans,
    forwarding-table reading, IPv4 header rewriting;
  - `app_binds`, `binds`, `processes` — per-app NIC binds, their status and
    their WFP filter plan;
  - `dns_exceptions`, `host_overrides`, `hosts_file` — NRPT exceptions and
    the owned block of the hosts file;
  - `ping`, `resolve`, `api`, `management`, `setup`, `cli`, `gateway_cli`,
    `nic_cli` — what the programs ask of the library.
- `tests/` — tests of the library on concrete values.
- `app/` — the programs: `roust` (command line and Windows service),
  `roust-api` (HTTP API) and `roust-setup` (post-install helper), chosen by
  the executable's file name.
