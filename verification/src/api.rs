//! What the desktop front end asks of the library: gateway rows, route
//! predictions, and rule edits checked against the host's interfaces.

use vstd::prelude::*;
use crate::config::{
    compile_error_matches, compiled_as, is_cidr_rule, new_target_clear, new_target_result_matches,
    rule_compiles, rule_ok, rule_result_matches, CompiledRule,
    Config, ConfigError, DestinationKind, RoutingRule, TargetKind,
};
use crate::interfaces::{
    build_adapter_maps, maps_after, nic_gateway, EgressPrediction, NetworkInterface,
};
use crate::ipv4::{ipv4_parse, ipv4_text, ipv4_to_string, parse_ipv4};
use crate::routes::{gateway_from_forward_table, SystemRouteRow};
use crate::text::{trim, trimmed, upper, upper_string};

verus! {

/// State of the router service as the front end shows it.
#[derive(Clone, Debug)]
pub struct ServiceStatus {
    pub state: String,
    pub installed: bool,
    pub directory: String,
    pub version: String,
}

/// One adapter with a default gateway.
#[derive(Clone, Debug)]
pub struct GatewayRow {
    pub nic_name: String,
    pub mac: String,
    pub gateway_ip: String,
}

/// Where the host routes a destination.
#[derive(Clone, Debug)]
pub struct PredictResult {
    pub destination: String,
    pub if_index: u32,
    pub next_hop: String,
    pub nic_name: Option<String>,
    pub nic_display: Option<String>,
}

/// The answer to a rule edit.
#[derive(Clone, Debug)]
pub struct RuleMutationResult {
    pub message: String,
    pub live_apply_hint: Option<String>,
}

/// The configuration path given, else the default one.
pub fn resolve_config_path(config: Option<String>, default_path: String) -> (p: String)
    ensures
        p == (match config {
            Some(c) => c,
            None => default_path,
        }),
{
    match config {
        Some(c) => c,
        None => default_path,
    }
}

/// How an adapter is named in the gateway list: its alias when non-empty,
/// else its description when non-empty, else its internal name.
pub open spec fn gateway_row_name(i: NetworkInterface) -> Seq<char> {
    if i.friendly_name is Some && i.friendly_name->0@.len() > 0 {
        i.friendly_name->0@
    } else if i.display_name@.len() > 0 {
        i.display_name@
    } else {
        i.name@
    }
}

/// The interfaces that have a gateway (their own, else a default route in
/// the forwarding table), in order.
pub open spec fn with_gateway(ifs: Seq<NetworkInterface>, table: Seq<SystemRouteRow>) -> Seq<NetworkInterface> {
    ifs.filter(|i: NetworkInterface| nic_gateway(i, table) is Some)
}

/// A gateway row describes an interface and its gateway.
pub open spec fn row_describes(r: GatewayRow, i: NetworkInterface, table: Seq<SystemRouteRow>) -> bool {
    &&& r.nic_name@ == gateway_row_name(i)
    &&& r.mac@ == upper(i.mac_address@)
    &&& r.gateway_ip@ == ipv4_text(nic_gateway(i, table)->0)
}

/// One row per adapter with a gateway (`list_gateways` once the adapters
/// and the forwarding table are read).
pub fn list_gateways(interfaces: &[NetworkInterface], table: &[SystemRouteRow]) -> (rows: Vec<GatewayRow>)
    ensures
        rows@.len() == with_gateway(interfaces@, table@).len(),
        forall|k: int|
            0 <= k < rows@.len() ==> row_describes(
                #[trigger] rows@[k],
                with_gateway(interfaces@, table@)[k],
                table@,
            ),
{
    let ghost pred = |i: NetworkInterface| nic_gateway(i, table@) is Some;
    let mut rows: Vec<GatewayRow> = Vec::new();
    let ghost mut kept: Seq<NetworkInterface> = Seq::empty();
    let mut j: usize = 0;
    assert(interfaces@.subrange(0, 0).filter(pred) =~= Seq::<NetworkInterface>::empty()) by {
        reveal(Seq::filter);
    }
    while j < interfaces.len()
        invariant
            j <= interfaces@.len(),
            forall|i: NetworkInterface| #[trigger] pred(i) == (nic_gateway(i, table@) is Some),
            kept == interfaces@.subrange(0, j as int).filter(pred),
            rows@.len() == kept.len(),
            forall|k: int| 0 <= k < rows@.len() ==> row_describes(#[trigger] rows@[k], kept[k], table@),
        decreases interfaces@.len() - j,
    {
        let nic = &interfaces[j];
        proof {
            assert(interfaces@.subrange(0, j + 1) =~= interfaces@.subrange(0, j as int).push(*nic));
            crate::text::lemma_filter_push(interfaces@.subrange(0, j as int), *nic, pred);
        }
        let gateway = match nic.default_gateway {
            Some(g) => Some(g),
            None => match gateway_from_forward_table(table, nic.if_index) {
                Ok(g) => Some(g),
                Err(_) => None,
            },
        };
        if let Some(gw) = gateway {
            let nic_name = match &nic.friendly_name {
                Some(f) if f.as_str().unicode_len() > 0 => f.clone(),
                _ => if nic.display_name.as_str().unicode_len() > 0 {
                    nic.display_name.clone()
                } else {
                    nic.name.clone()
                },
            };
            rows.push(
                GatewayRow {
                    nic_name,
                    mac: upper_string(nic.mac_address.as_str()),
                    gateway_ip: ipv4_to_string(gw),
                },
            );
            proof {
                kept = kept.push(*nic);
            }
        }
        j = j + 1;
    }
    assert(interfaces@.subrange(0, interfaces@.len() as int) =~= interfaces@);
    rows
}

/// Reads the address of a route prediction; the error is the message shown.
pub fn parse_predict_ip(ip: &str) -> (r: Result<u32, String>)
    ensures
        match ipv4_parse(ip@) {
            Some(a) => r == Ok::<u32, String>(a),
            None => r matches Err(m) && m@ == "IP must be a valid IPv4 address (e.g. 8.8.8.8)"@,
        },
{
    match parse_ipv4(ip) {
        Some(a) => Ok(a),
        None => Err(String::from_str("IP must be a valid IPv4 address (e.g. 8.8.8.8)")),
    }
}

fn copy_string(o: &Option<String>) -> (r: Option<String>)
    ensures
        r == *o,
{
    match o {
        Some(s) => Some(s.clone()),
        None => None,
    }
}

/// The prediction as the front end shows it; the NIC name falls back to the
/// alias.
pub fn predict_result_from_egress(p: &EgressPrediction) -> (r: PredictResult)
    ensures
        r.destination@ == ipv4_text(p.dest),
        r.if_index == p.if_index,
        r.next_hop@ == ipv4_text(p.next_hop),
        r.nic_name == (if p.nic_name is Some {
            p.nic_name
        } else {
            p.nic_friendly
        }),
        r.nic_display == p.nic_display,
{
    PredictResult {
        destination: ipv4_to_string(p.dest),
        if_index: p.if_index,
        next_hop: ipv4_to_string(p.next_hop),
        nic_name: match &p.nic_name {
            Some(n) => Some(n.clone()),
            None => copy_string(&p.nic_friendly),
        },
        nic_display: copy_string(&p.nic_display),
    }
}

/// The hint after a rule edit: whether the running service picks it up
/// (`active` is the service's state, none when it could not be read).
pub open spec fn hint_matches(h: Option<String>, active: Option<bool>) -> bool {
    match active {
        Some(true) => h matches Some(s) && s@ == "Changes apply automatically to the running service."@,
        Some(false) => h matches Some(s) && s@ == "Start the service to apply rules."@,
        None => h is None,
    }
}

/// The hint after a rule edit (see `hint_matches`).
pub fn live_apply_hint(active: Option<bool>) -> (h: Option<String>)
    ensures
        hint_matches(h, active),
{
    match active {
        Some(true) => Some(String::from_str("Changes apply automatically to the running service.")),
        Some(false) => Some(String::from_str("Start the service to apply rules.")),
        None => None,
    }
}

/// The service state word: `started`, `stopped` or `not_installed`.
pub fn service_state_name(installed: bool, active: bool) -> (s: String)
    ensures
        s@ == (if !installed {
            "not_installed"@
        } else if active {
            "started"@
        } else {
            "stopped"@
        }),
{
    if !installed {
        String::from_str("not_installed")
    } else if active {
        String::from_str("started")
    } else {
        String::from_str("stopped")
    }
}

/// The status the front end shows.
pub fn service_status(directory: String, installed: bool, active: bool, version: String) -> (s:
    ServiceStatus)
    ensures
        s.directory == directory,
        s.installed == installed,
        s.version == version,
        s.state@ == (if !installed {
            "not_installed"@
        } else if active {
            "started"@
        } else {
            "stopped"@
        }),
{
    ServiceStatus { state: service_state_name(installed, active), installed, directory, version }
}

fn copy_rule(r: &RoutingRule) -> (c: RoutingRule)
    ensures
        c == *r,
{
    RoutingRule {
        target: r.target,
        target_value: r.target_value.clone(),
        destination: r.destination,
        destination_value: r.destination_value.clone(),
    }
}

/// A rule checks out on this host: it is well formed and it compiles
/// against the host's interfaces.
pub open spec fn rule_ok_on_host(
    rule: RoutingRule,
    ifs: Seq<NetworkInterface>,
    table: Seq<SystemRouteRow>,
) -> bool {
    let (macs, nics, gws) = maps_after(ifs, table, ifs.len() as int);
    rule_ok(rule) && rule_compiles(rule, macs, nics, gws)
}

/// Checks a rule, then compiles it alone against the host's interfaces.
pub fn validate_rule_on_host(
    rule: &RoutingRule,
    interfaces: &[NetworkInterface],
    table: &[SystemRouteRow],
) -> (r: Result<(), ConfigError>)
    ensures
        r is Ok <==> rule_ok_on_host(*rule, interfaces@, table@),
        !rule_ok(*rule) ==> rule_result_matches(r, *rule),
        rule_ok(*rule) ==> (r matches Err(e) ==> ({
            let (macs, nics, gws) = maps_after(interfaces@, table@, interfaces@.len() as int);
            compile_error_matches(e, *rule, macs, nics)
        })),
{
    rule.validate()?;
    let single = Config { rules: vec![copy_rule(rule)] };
    let (mac_map, nic_map, gw_map) = build_adapter_maps(interfaces, table);
    let r = single.compile_rules(&mac_map, &nic_map, &gw_map);
    match r {
        Ok(_) => {
            assert(single.rules@[0] == *rule);
            Ok(())
        },
        Err(e) => {
            assert(single.rules@[0] == *rule);
            Err(e)
        },
    }
}

/// A rule with both values trimmed.
pub open spec fn trimmed_rule(r: RoutingRule, target: TargetKind, tv: Seq<char>, destination: DestinationKind, dv: Seq<char>) -> bool {
    r.target == target && r.target_value@ == trim(tv) && r.destination == destination
        && r.destination_value@ == trim(dv)
}

/// Adds a rule (values trimmed) after checking it against the host; the
/// caller saves the configuration when this succeeds.
pub fn add_rule(
    config: &mut Config,
    target: TargetKind,
    target_value: String,
    destination: DestinationKind,
    destination_value: String,
    interfaces: &[NetworkInterface],
    table: &[SystemRouteRow],
    service_active: Option<bool>,
) -> (r: Result<RuleMutationResult, ConfigError>)
    ensures
        r is Ok <==> exists|rr: RoutingRule|
            trimmed_rule(rr, target, target_value@, destination, destination_value@)
                && rule_ok_on_host(rr, interfaces@, table@) && (is_cidr_rule(rr) ==> new_target_clear(
                rr.target_value@,
                old(config).rules@,
                None,
                old(config).rules@.len() as int,
            )),
        r is Ok ==> final(config).rules@.len() == old(config).rules@.len() + 1,
        r is Ok ==> final(config).rules@.drop_last() == old(config).rules@,
        r is Ok ==> trimmed_rule(
            final(config).rules@.last(),
            target,
            target_value@,
            destination,
            destination_value@,
        ),
        r is Ok ==> rule_ok_on_host(final(config).rules@.last(), interfaces@, table@),
        r matches Ok(m) ==> m.message@ == "Rule added successfully."@ && hint_matches(
            m.live_apply_hint,
            service_active,
        ),
        r is Err ==> final(config).rules@ == old(config).rules@,
        old(config).valid() ==> final(config).valid(),
{
    let rule = RoutingRule {
        target,
        target_value: trimmed(target_value.as_str()),
        destination,
        destination_value: trimmed(destination_value.as_str()),
    };
    validate_rule_on_host(&rule, interfaces, table)?;
    let ghost added = rule;
    config.add_rule(rule)?;
    Ok(
        RuleMutationResult {
            message: String::from_str("Rule added successfully."),
            live_apply_hint: live_apply_hint(service_active),
        },
    )
}

/// Replaces the rule at `index` (values trimmed) after checking it against
/// the host; the caller saves the configuration when this succeeds.
pub fn edit_rule(
    config: &mut Config,
    index: usize,
    target: TargetKind,
    target_value: String,
    destination: DestinationKind,
    destination_value: String,
    interfaces: &[NetworkInterface],
    table: &[SystemRouteRow],
    service_active: Option<bool>,
) -> (r: Result<RuleMutationResult, ConfigError>)
    ensures
        r is Ok <==> index < old(config).rules@.len() && exists|rr: RoutingRule|
            trimmed_rule(rr, target, target_value@, destination, destination_value@)
                && rule_ok_on_host(rr, interfaces@, table@) && (is_cidr_rule(rr) ==> new_target_clear(
                rr.target_value@,
                old(config).rules@,
                Some(index),
                old(config).rules@.len() as int,
            )),
        r is Ok ==> final(config).rules@.len() == old(config).rules@.len(),
        r is Ok ==> forall|i: int|
            0 <= i < old(config).rules@.len() && i != index ==> final(config).rules@[i] == old(
                config,
            ).rules@[i],
        r is Ok ==> trimmed_rule(
            final(config).rules@[index as int],
            target,
            target_value@,
            destination,
            destination_value@,
        ),
        r is Ok ==> rule_ok_on_host(final(config).rules@[index as int], interfaces@, table@),
        r matches Ok(m) ==> m.message@ == "Rule updated successfully."@ && hint_matches(
            m.live_apply_hint,
            service_active,
        ),
        r is Err ==> final(config).rules@ == old(config).rules@,
        old(config).valid() ==> final(config).valid(),
{
    let rule = RoutingRule {
        target,
        target_value: trimmed(target_value.as_str()),
        destination,
        destination_value: trimmed(destination_value.as_str()),
    };
    validate_rule_on_host(&rule, interfaces, table)?;
    config.replace_rule_at(index, rule)?;
    Ok(
        RuleMutationResult {
            message: String::from_str("Rule updated successfully."),
            live_apply_hint: live_apply_hint(service_active),
        },
    )
}

/// Deletes the rule at `index`; the caller saves the configuration when a
/// rule was removed.
pub fn delete_rule(config: &mut Config, index: usize, service_active: Option<bool>) -> (r:
    RuleMutationResult)
    ensures
        index < old(config).rules@.len() ==> final(config).rules@ == old(config).rules@.remove(
            index as int,
        ) && r.message@ == "Rule deleted successfully."@ && hint_matches(
            r.live_apply_hint,
            service_active,
        ),
        index >= old(config).rules@.len() ==> final(config).rules@ == old(config).rules@
            && r.message@ == "Rule not found."@ && r.live_apply_hint is None,
        old(config).valid() ==> final(config).valid(),
{
    if config.remove_rule_at(index) {
        RuleMutationResult {
            message: String::from_str("Rule deleted successfully."),
            live_apply_hint: live_apply_hint(service_active),
        }
    } else {
        RuleMutationResult { message: String::from_str("Rule not found."), live_apply_hint: None }
    }
}


/// Why importing rules from a file failed.
#[derive(Clone, Debug)]
pub enum ImportError {
    /// An entry does not check out on this host.
    Entry { label: String, file: String, error: ConfigError },
    /// An entry conflicts with the configuration.
    Config(ConfigError),
}

impl ImportError {
    /// The message a user sees for the error.
    pub open spec fn message(self) -> Seq<char> {
        match self {
            ImportError::Entry { label, file, error } => "entry "@ + label@ + " in "@ + file@
                + ": "@ + error.message(),
            ImportError::Config(e) => e.message(),
        }
    }

    /// The message a user sees for the error.
    pub fn to_string(&self) -> (s: String)
        ensures
            s@ == self.message(),
    {
        match self {
            ImportError::Entry { label, file, error } => {
                let mut s = String::from_str("entry ");
                s.append(label.as_str());
                s.append(" in ");
                s.append(file.as_str());
                s.append(": ");
                let m = error.to_string();
                s.append(m.as_str());
                s
            },
            ImportError::Config(e) => e.to_string(),
        }
    }
}

/// Entry `i` of an import goes in: it checks out on the host and, when its
/// target is a CIDR block, that block is clear of the configuration as it
/// stands after the earlier entries (`base` followed by them).
pub open spec fn import_entry_ok(
    base: Seq<RoutingRule>,
    imported: Seq<RoutingRule>,
    i: int,
    ifs: Seq<NetworkInterface>,
    table: Seq<SystemRouteRow>,
) -> bool {
    &&& rule_ok_on_host(imported[i], ifs, table)
    &&& is_cidr_rule(imported[i]) ==> new_target_clear(
        imported[i].target_value@,
        base + imported.subrange(0, i),
        None,
        base.len() + i,
    )
}

/// Every entry before `n` goes in.
pub open spec fn import_ok_upto(
    base: Seq<RoutingRule>,
    imported: Seq<RoutingRule>,
    n: int,
    ifs: Seq<NetworkInterface>,
    table: Seq<SystemRouteRow>,
) -> bool {
    forall|k: int| 0 <= k < n ==> import_entry_ok(base, imported, k, ifs, table)
}

/// Entry `i` is the first entry of the import that does not go in.
pub open spec fn import_fails_at(
    base: Seq<RoutingRule>,
    imported: Seq<RoutingRule>,
    i: int,
    ifs: Seq<NetworkInterface>,
    table: Seq<SystemRouteRow>,
) -> bool {
    &&& 0 <= i < imported.len()
    &&& import_ok_upto(base, imported, i, ifs, table)
    &&& !import_entry_ok(base, imported, i, ifs, table)
}

/// Adds imported rules one by one, each checked against the host first and
/// then added; the first entry that fails stops the import. The caller saves
/// the configuration when every rule was added.
pub fn import_rules_from_file(
    config: &mut Config,
    file: &str,
    imported: Vec<RoutingRule>,
    interfaces: &[NetworkInterface],
    table: &[SystemRouteRow],
    service_active: Option<bool>,
) -> (r: Result<RuleMutationResult, ImportError>)
    ensures
        r is Ok <==> import_ok_upto(
            old(config).rules@,
            imported@,
            imported@.len() as int,
            interfaces@,
            table@,
        ),
        r is Ok ==> final(config).rules@ == old(config).rules@ + imported@,
        r matches Ok(m) ==> m.message@ == "Rule(s) imported successfully."@ && hint_matches(
            m.live_apply_hint,
            service_active,
        ),
        r matches Err(ImportError::Entry { label, file: f, error }) ==> f@ == file@ && exists|i: int|
            #[trigger] import_fails_at(old(config).rules@, imported@, i, interfaces@, table@)
                && !rule_ok_on_host(imported@[i], interfaces@, table@) && label@
                == crate::config::rule_label(imported@[i]) && (!rule_ok(imported@[i])
                ==> rule_result_matches(Err(error), imported@[i])) && (rule_ok(imported@[i]) ==> ({
                let (macs, nics, gws) = maps_after(
                    interfaces@,
                    table@,
                    interfaces@.len() as int,
                );
                compile_error_matches(error, imported@[i], macs, nics)
            })) && final(config).rules@ == old(config).rules@ + imported@.subrange(0, i),
        r matches Err(ImportError::Config(e)) ==> exists|i: int|
            #[trigger] import_fails_at(old(config).rules@, imported@, i, interfaces@, table@)
                && rule_ok_on_host(imported@[i], interfaces@, table@) && is_cidr_rule(imported@[i])
                && new_target_result_matches(
                Err(e),
                imported@[i].target_value@,
                old(config).rules@ + imported@.subrange(0, i),
                None,
            ) && final(config).rules@ == old(config).rules@ + imported@.subrange(0, i),
        old(config).valid() ==> final(config).valid(),
{
    let mut rest = imported;
    let ghost all = rest@;
    let ghost start = config.rules@;
    let n = rest.len();
    let mut i: usize = 0;
    while rest.len() > 0
        invariant
            all == imported@,
            all.len() == n,
            i <= n,
            rest@ == all.subrange(i as int, n as int),
            config.rules@ == start + all.subrange(0, i as int),
            import_ok_upto(start, all, i as int, interfaces@, table@),
            start == old(config).rules@,
            old(config).valid() ==> config.valid(),
        decreases rest@.len(),
    {
        let rule = rest.remove(0);
        assert(rule == all[i as int]);
        assert((start + all.subrange(0, i as int)).len() == start.len() + i);
        match validate_rule_on_host(&rule, interfaces, table) {
            Ok(()) => {},
            Err(error) => {
                assert(import_fails_at(start, all, i as int, interfaces@, table@));
                return Err(
                    ImportError::Entry { label: rule.label(), file: String::from_str(file), error },
                );
            },
        }
        match config.add_rule(rule) {
            Ok(()) => {},
            Err(e) => {
                assert(import_fails_at(start, all, i as int, interfaces@, table@));
                return Err(ImportError::Config(e));
            },
        }
        proof {
            assert(config.rules@ =~= start + all.subrange(0, i + 1));
            assert(import_entry_ok(start, all, i as int, interfaces@, table@));
            assert forall|k: int| 0 <= k < i + 1 implies import_entry_ok(
                start,
                all,
                k,
                interfaces@,
                table@,
            ) by {
                if k < i {
                    assert(import_entry_ok(start, all, k, interfaces@, table@));
                }
            }
        }
        i = i + 1;
    }
    assert(all.subrange(0, n as int) =~= all);
    Ok(
        RuleMutationResult {
            message: String::from_str("Rule(s) imported successfully."),
            live_apply_hint: live_apply_hint(service_active),
        },
    )
}

} // verus!
