use roust::api::{
    add_rule, delete_rule, edit_rule, import_rules_from_file, list_gateways, live_apply_hint,
    parse_predict_ip, predict_result_from_egress, resolve_config_path, service_status,
};
use roust::app_binds::{AppBind, AppBindStatus};
use roust::binds::{adapter_signature, bind_filter_plan, resolve_bind_exe_path, resolve_bind_status, FilterLayer};
use roust::mac::format_mac_address;
use roust::resolve::{lookup_answer, read_hostname, HostnameQuery, ResolveError};
use roust::cidr::parse_cidr;
use roust::config::{Config, DestinationKind, RoutingRule, TargetKind};
use roust::interfaces::{EgressPrediction, NetworkInterface};
use roust::ipv4::{address_from_octets as ip, ipv4_to_string, parse_ipv4};
use roust::management::{route_items, service_state_label, status_response, ApiOptions, RouteSource, ServiceStateKind};
use roust::paths::{is_json_path, with_file_name};
use roust::ping::{
    clamp_count, classify_ping_host, first_unicast, icmp_status_message, ping_setup, received_count,
    PingError, PingHost, PingReply,
};
use roust::processes::{resolve_image_name_to_path, sort_processes, ProcessItem};
use roust::routes::{host_route_exists, SystemRouteRow};
use roust::setup::{append_user_path_script, embed_install_dir_in_ps, rustup_init_download_url_for_arch, SetupOptions};
use roust::gateway_cli::rule_target;
use roust::cli::{rule_destination, rule_index, rule_target_kind};

fn nic(name: &str, friendly: Option<&str>, gw: Option<u32>, if_index: u32, ipv4: Option<&str>, status: &str) -> NetworkInterface {
    NetworkInterface {
        name: name.to_string(),
        display_name: String::new(),
        friendly_name: friendly.map(|s| s.to_string()),
        default_gateway: gw,
        if_index,
        mac_address: "aa:bb:cc:dd:ee:ff".to_string(),
        ipv4_address: ipv4.map(|s| s.to_string()),
        status: status.to_string(),
    }
}

#[test]
fn ping_count_and_status_text() {
    assert_eq!(clamp_count(None), 4);
    assert_eq!(clamp_count(Some(0)), 1);
    assert_eq!(clamp_count(Some(50)), 10);
    assert_eq!(clamp_count(Some(7)), 7);
    assert_eq!(icmp_status_message(0), "ok");
    assert_eq!(icmp_status_message(11010), "ICMP request timed out");
    assert_eq!(icmp_status_message(42), "ICMP status 42");
}

#[test]
fn ping_host_reading() {
    assert_eq!(classify_ping_host("  ").unwrap_err(), PingError::EmptyHost);
    assert_eq!(classify_ping_host(" 192.168.0.254 ").unwrap(), PingHost::Address(ip(192, 168, 0, 254)));
    assert_eq!(
        classify_ping_host("224.0.0.1").unwrap_err().to_string(),
        "host address 224.0.0.1 is not a unicast IPv4 target"
    );
    assert_eq!(classify_ping_host("::1").unwrap_err(), PingError::Ipv6NotSupported);
    assert_eq!(classify_ping_host("example.com").unwrap(), PingHost::Name("example.com".to_string()));
    assert_eq!(first_unicast(&[0, ip(239, 0, 0, 1), ip(1, 1, 1, 1)]), Some(ip(1, 1, 1, 1)));
    assert_eq!(first_unicast(&[0]), None);
}

#[test]
fn ping_setup_through_nic() {
    let ifs = vec![
        nic("eth0", Some("Ethernet"), None, 7, Some("192.168.1.20"), "Up"),
        nic("lo", Some("Loop"), None, 1, Some("127.0.0.1"), "Up"),
        nic("x", Some("NoIp"), None, 2, None, "Up"),
    ];
    let table = vec![SystemRouteRow { dest: 0, prefix_len: 0, gateway: ip(192, 168, 1, 1), if_index: 7 }];
    let p = ping_setup(ip(8, 8, 8, 8), " ethernet ", Some(2), &ifs, &table).unwrap();
    assert_eq!(p.if_index, 7);
    assert_eq!(p.gateway, ip(192, 168, 1, 1));
    assert_eq!(p.source_ip, ip(192, 168, 1, 20));
    assert_eq!(p.nic_label, "Ethernet");
    assert_eq!(p.count, 2);
    assert_eq!(ping_setup(1, "Missing", None, &ifs, &table).unwrap_err().to_string(), "NIC 'Missing' not found");
    assert_eq!(
        ping_setup(1, "Loop", None, &ifs, &table).unwrap_err().to_string(),
        "NIC 'Loop' IPv4 127.0.0.1 cannot be used as ping source"
    );
    assert_eq!(ping_setup(1, "NoIp", None, &ifs, &table).unwrap_err(), PingError::NoIpv4("NoIp".to_string()));
    let replies = vec![
        PingReply { seq: 1, success: true, rtt_ms: Some(3), error: None },
        PingReply { seq: 2, success: false, rtt_ms: None, error: Some("x".to_string()) },
    ];
    assert_eq!(received_count(&replies), 1);
}

#[test]
fn processes_and_bind_status() {
    let ps = vec![
        ProcessItem { pid: 4, image_name: "System".to_string(), exe_path: None },
        ProcessItem { pid: 10, image_name: "APP.exe".to_string(), exe_path: None },
        ProcessItem { pid: 11, image_name: "app.exe".to_string(), exe_path: Some(r"C:\a\app.exe".to_string()) },
    ];
    assert_eq!(resolve_image_name_to_path(" App.EXE ", &ps), Some(r"C:\a\app.exe".to_string()));
    assert_eq!(resolve_image_name_to_path("  ", &ps), None);
    let bind = AppBind { exe_path: Some(r"C:\gone.exe".into()), image_name: Some("app.exe".into()), nic: " eth0 ".into() };
    assert_eq!(resolve_bind_exe_path(&bind, false, &ps), Some(r"C:\a\app.exe".to_string()));
    assert_eq!(resolve_bind_exe_path(&bind, true, &ps), Some(r"C:\gone.exe".to_string()));
    let up = vec![nic("eth0", None, None, 7, Some("10.0.0.2"), "up")];
    let down = vec![nic("eth0", None, None, 7, Some("0.0.0.0"), "Up")];
    assert_eq!(resolve_bind_status(&bind, &up, true, &ps), AppBindStatus::Healthy);
    assert_eq!(resolve_bind_status(&bind, &down, true, &ps), AppBindStatus::NicDown);
    assert_eq!(resolve_bind_status(&bind, &[], true, &ps), AppBindStatus::Unresolved);
    let lost = AppBind { exe_path: None, image_name: Some("nope.exe".into()), nic: "eth0".into() };
    assert_eq!(resolve_bind_status(&lost, &up, false, &ps), AppBindStatus::Unresolved);
}

#[test]
fn setup_scripts_and_options() {
    let s = embed_install_dir_in_ps("a '<<ROUST_INSTALL>>' b <<ROUST_INSTALL>>", r"C:\Bob's");
    assert_eq!(s, r"a 'C:\Bob''s' b <<ROUST_INSTALL>>");
    assert_eq!(embed_install_dir_in_ps("none", "x"), "none");
    let script = append_user_path_script(r"C:\Program Files\roust");
    assert!(script.contains(r"GetFullPath('C:\Program Files\roust')"));
    assert!(!script.contains("<<ROUST_INSTALL>>"));
    let o = SetupOptions::from_env_flags("d".to_string(), true, true, false, true, false);
    assert!(!o.install_rust && o.update_path && !o.download_lists && o.download_windivert);
    assert!(rustup_init_download_url_for_arch("aarch64").contains("aarch64-pc-windows-msvc"));
    assert!(rustup_init_download_url_for_arch("riscv").contains("x86_64-pc-windows-msvc"));
}

#[test]
fn paths_and_addresses() {
    assert_eq!(with_file_name("routes.json", "a.json"), "a.json");
    assert_eq!(with_file_name("/etc/roust/", "a.json"), "/etc/a.json");
    assert_eq!(with_file_name("/", "a.json"), "/a.json");
    assert!(is_json_path("x/y.JSON"));
    assert!(!is_json_path(".json"));
    assert!(!is_json_path("json"));
    assert_eq!(parse_ipv4("1.2.3.4"), Some(ip(1, 2, 3, 4)));
    assert_eq!(parse_ipv4("1.2.3"), None);
    assert_eq!(ipv4_to_string(ip(10, 20, 9, 254)), "10.20.9.254");
    let net = parse_cidr(" 10.1.2.3/255.0.0.0 ").unwrap();
    assert_eq!(net.prefix, 8);
    assert!(net.contains_address(ip(10, 200, 0, 1)));
}

#[test]
fn front_end_rule_edits() {
    let ifs = vec![nic("eth0", Some("Ethernet"), Some(ip(192, 168, 1, 1)), 7, Some("192.168.1.20"), "Up")];
    let mut config = Config::new();
    let ok = add_rule(&mut config, TargetKind::Cidr, " 10.0.0.0/8 ".into(), DestinationKind::Nic, " Ethernet ".into(), &ifs, &[], Some(true)).unwrap();
    assert_eq!(ok.message, "Rule added successfully.");
    assert_eq!(ok.live_apply_hint, Some("Changes apply automatically to the running service.".to_string()));
    assert_eq!(config.rules[0].target_value, "10.0.0.0/8");
    let err = add_rule(&mut config, TargetKind::Cidr, "11.0.0.0/8".into(), DestinationKind::Nic, "Wi-Fi".into(), &ifs, &[], None).unwrap_err();
    assert_eq!(err.to_string(), "rule cidr:11.0.0.0/8 → nic:Wi-Fi: destination NIC \"Wi-Fi\" not found on any local interface");
    let ed = edit_rule(&mut config, 0, TargetKind::Ip, "8.8.8.8".into(), DestinationKind::Ip, "192.168.1.1".into(), &ifs, &[], None).unwrap();
    assert_eq!(ed.message, "Rule updated successfully.");
    let imported = vec![RoutingRule { target: TargetKind::Cidr, target_value: "172.16.0.0/12".into(), destination: DestinationKind::Mac, destination_value: "00:00:00:00:00:01".into() }];
    let e = import_rules_from_file(&mut config, "r.json", imported, &ifs, &[], None).unwrap_err();
    assert!(e.to_string().starts_with("entry cidr:172.16.0.0/12 → mac:00:00:00:00:00:01 in r.json: rule"));
    let d = delete_rule(&mut config, 5, Some(false));
    assert_eq!(d.message, "Rule not found.");
    assert_eq!(delete_rule(&mut config, 0, Some(false)).message, "Rule deleted successfully.");
    assert_eq!(live_apply_hint(Some(false)), Some("Start the service to apply rules.".to_string()));
    assert_eq!(live_apply_hint(None), None);
    let rows = list_gateways(&ifs, &[]);
    assert_eq!(rows[0].nic_name, "Ethernet");
    assert_eq!(rows[0].mac, "AA:BB:CC:DD:EE:FF");
    assert_eq!(rows[0].gateway_ip, "192.168.1.1");
    assert_eq!(resolve_config_path(None, "routes.json".into()), "routes.json");
    assert_eq!(service_status("d".into(), false, true, "1".into()).state, "not_installed");
    assert_eq!(parse_predict_ip("x").unwrap_err(), "IP must be a valid IPv4 address (e.g. 8.8.8.8)");
    let p = predict_result_from_egress(&EgressPrediction {
        dest: ip(8, 8, 8, 8), if_index: 7, next_hop: ip(192, 168, 1, 1),
        nic_name: None, nic_display: None, nic_friendly: Some("Ethernet".into()),
    });
    assert_eq!(p.destination, "8.8.8.8");
    assert_eq!(p.nic_name, Some("Ethernet".to_string()));
}

#[test]
fn management_answers() {
    assert_eq!(service_state_label(ServiceStateKind::StartPending), "StartPending");
    let s = status_response(true, "Running".into(), "c".into(), 2, 3, "0.1".into());
    assert_eq!(s.rule_count, 5);
    let r = |v: &str| RoutingRule { target: TargetKind::Ip, target_value: v.into(), destination: DestinationKind::Ip, destination_value: "1.1.1.1".into() };
    let items = route_items(vec![r("1.1.1.1"), r("2.2.2.2")], vec![r("3.3.3.3")]);
    assert_eq!(items.len(), 3);
    assert_eq!(items[1].index, Some(1));
    assert_eq!(items[2].index, None);
    assert_eq!(items[2].source, RouteSource::System);
    assert_eq!(ApiOptions::new().bind, "127.0.0.1:8787");
    assert_eq!(rule_target(None, Some("n".into()), Some("g".into())), Some("n".to_string()));
}

#[test]
fn resolve_literal_ipv4() {
    let q = read_hostname("8.8.8.8").unwrap();
    assert_eq!(q, HostnameQuery::Literal(ip(8, 8, 8, 8)));
}

#[test]
fn reject_empty() {
    assert!(read_hostname("  ").is_err());
}

#[test]
fn hostname_reading_and_lookup_answers() {
    assert_eq!(read_hostname(" example.com ").unwrap(), HostnameQuery::Lookup("example.com".to_string()));
    assert_eq!(read_hostname("0.0.0.0").unwrap_err(), ResolveError::NotUnicast(0));
    assert_eq!(read_hostname("::1").unwrap_err(), ResolveError::Ipv6NotSupported);
    let a = ip(1, 2, 3, 4);
    let b = ip(5, 6, 7, 8);
    assert_eq!(lookup_answer("h", &[a, 0, b, a, ip(224, 0, 0, 1)]).unwrap(), vec![a, b]);
    assert!(matches!(lookup_answer("h", &[0]), Err(ResolveError::NoIpv4(_))));
}

#[test]
fn bind_filters_follow_the_nic() {
    let ps: Vec<ProcessItem> = vec![];
    let bind = AppBind { exe_path: Some(r"C:\a\app.exe".into()), image_name: None, nic: "eth0".into() };
    let up = vec![nic("eth0", None, None, 7, Some("10.0.0.2"), "Up")];
    let (path, filters) = bind_filter_plan(&bind, true, &ps, &up).unwrap();
    assert_eq!(path, r"C:\a\app.exe");
    assert_eq!(filters.len(), 4);
    assert_eq!(filters[0].layer, FilterLayer::AuthConnectV4);
    assert_eq!(filters[0].if_index, Some(7));
    assert!(filters[0].permit);
    assert_eq!(filters[0].weight, 15);
    assert_eq!(filters[0].name, r"Roust allow C:\a\app.exe → eth0 on if 7");
    assert_eq!(filters[1].if_index, None);
    assert!(!filters[1].permit);
    assert_eq!(filters[1].weight, 10);
    assert_eq!(filters[1].name, r"Roust block C:\a\app.exe → eth0 off-NIC");
    assert_eq!(filters[2].layer, FilterLayer::ResourceAssignmentV4);
    assert_eq!(filters[3].layer, FilterLayer::ResourceAssignmentV4);

    let down = vec![nic("eth0", None, None, 7, None, "Up")];
    let (_, filters) = bind_filter_plan(&bind, true, &ps, &down).unwrap();
    assert_eq!(filters.len(), 2);
    assert_eq!(filters[0].name, r"Roust block C:\a\app.exe → eth0 (NIC down)");
    assert_eq!(filters[0].weight, 15);
    assert!(!filters[0].permit);

    let lost = AppBind { exe_path: None, image_name: Some("nope.exe".into()), nic: "eth0".into() };
    assert!(bind_filter_plan(&lost, false, &ps, &up).is_none());
}

#[test]
fn mac_address_text() {
    assert_eq!(format_mac_address(&[0x00, 0x1a, 0x2B, 0xff, 0x09, 0xa0, 0, 0]), "00-1A-2B-FF-09-A0");
    assert_eq!(format_mac_address(&[1, 2, 3, 4, 5]), "N/A");
    assert_eq!(format_mac_address(&[]), "N/A");
}

#[test]
fn address_text_reads_back() {
    for a in [0u32, 1, 0x0a00_0001, 0xc0a8_0164, 0xffff_ffff, 0x6413_df4f] {
        assert_eq!(parse_ipv4(&ipv4_to_string(a)), Some(a));
    }
}

#[test]
fn processes_sorted_by_name_then_pid() {
    let p = |pid: u32, name: &str| ProcessItem { pid, image_name: name.to_string(), exe_path: None };
    let sorted = sort_processes(vec![p(9, "b.exe"), p(3, "A.exe"), p(2, "a.exe"), p(1, "svchost.exe"), p(5, "B.exe")]);
    let order: Vec<u32> = sorted.iter().map(|x| x.pid).collect();
    assert_eq!(order, vec![2, 3, 5, 9, 1]);
    assert!(sort_processes(vec![]).is_empty());
}

#[test]
fn adapter_signature_is_sorted_and_joined() {
    let ifs = vec![
        nic("b", None, None, 12, Some("10.0.0.2"), "Up"),
        nic("a", None, None, 3, None, "Down"),
        nic("c", None, None, 12, Some("10.0.0.1"), "Up"),
    ];
    assert_eq!(adapter_signature(&ifs), "12:Up:10.0.0.1|12:Up:10.0.0.2|3:Down:");
    assert_eq!(adapter_signature(&[]), "");
}

#[test]
fn unknown_nic_fails_without_host_route() {
    let dest = ip(203, 0, 113, 50);
    let table: Vec<SystemRouteRow> = vec![];
    let before = host_route_exists(&table, dest);
    let host = classify_ping_host("203.0.113.50").unwrap();
    assert_eq!(host, PingHost::Address(dest));
    let err = ping_setup(dest, "__no_such_nic__", Some(1), &[], &table).unwrap_err();
    assert!(err.to_string().contains("not found"), "{}", err.to_string());
    let after = host_route_exists(&table, dest);
    assert_eq!(before, after, "failed ping must not leave a temp host route");
}

#[test]
fn import_adds_all_or_stops_at_first_failure() {
    let ifs = vec![nic("eth0", Some("Ethernet"), Some(ip(192, 168, 1, 1)), 7, Some("192.168.1.20"), "Up")];
    let r = |cidr: &str| RoutingRule {
        target: TargetKind::Cidr,
        target_value: cidr.into(),
        destination: DestinationKind::Nic,
        destination_value: "Ethernet".into(),
    };
    let mut config = Config::new();
    let ok = import_rules_from_file(&mut config, "r.json", vec![r("10.0.0.0/8"), r("172.16.0.0/12")], &ifs, &[], None).unwrap();
    assert_eq!(ok.message, "Rule(s) imported successfully.");
    assert_eq!(ok.live_apply_hint, None);
    assert_eq!(config.rules.len(), 2);

    let mut config = Config::new();
    let e = import_rules_from_file(&mut config, "r.json", vec![r("10.0.0.0/8"), r("10.1.0.0/16"), r("192.168.0.0/16")], &ifs, &[], None)
        .unwrap_err();
    assert!(e.to_string().contains("overlapping CIDR"), "{}", e.to_string());
    assert_eq!(config.rules.len(), 1);

    let mut config = Config::new();
    let mut bad = r("11.0.0.0/8");
    bad.destination_value = "Wi-Fi".into();
    let e = import_rules_from_file(&mut config, "r.json", vec![r("10.0.0.0/8"), bad, r("192.168.0.0/16")], &ifs, &[], None)
        .unwrap_err();
    assert!(e.to_string().starts_with("entry cidr:11.0.0.0/8 → nic:Wi-Fi in r.json:"), "{}", e.to_string());
    assert_eq!(config.rules.len(), 1);

    let mut config = Config::new();
    assert!(import_rules_from_file(&mut config, "r.json", vec![], &ifs, &[], Some(true)).is_ok());
}

#[test]
fn rule_command_arguments() {
    assert_eq!(rule_target_kind("10.0.0.0/8"), TargetKind::Cidr);
    assert_eq!(rule_target_kind("8.8.8.8"), TargetKind::Ip);
    assert_eq!(
        rule_destination(Some("192.168.1.1".into()), None).unwrap(),
        Some((DestinationKind::Ip, "192.168.1.1".to_string()))
    );
    assert_eq!(
        rule_destination(Some("192.168.1.1".into()), Some(" aa-bb-cc-dd-ee-ff ".into())).unwrap(),
        Some((DestinationKind::Mac, "AA:BB:CC:DD:EE:FF".to_string()))
    );
    assert_eq!(
        rule_destination(None, Some(" Wi-Fi ".into())).unwrap(),
        Some((DestinationKind::Nic, "Wi-Fi".to_string()))
    );
    assert_eq!(
        rule_destination(None, Some("10.0.0.9".into())).unwrap(),
        Some((DestinationKind::Ip, "10.0.0.9".to_string()))
    );
    assert_eq!(rule_destination(None, None).unwrap(), None);
    assert!(rule_destination(None, Some("  ".into())).is_err());
    let r = |v: &str| RoutingRule {
        target: TargetKind::Cidr,
        target_value: v.into(),
        destination: DestinationKind::Ip,
        destination_value: "192.168.1.1".into(),
    };
    let rules = vec![r("10.0.0.0/8"), r(" 172.16.0.0/12 "), r("172.16.0.0/12")];
    assert_eq!(rule_index(&rules, "172.16.0.0/12 "), Some(1));
    assert_eq!(rule_index(&rules, "192.168.0.0/16"), None);
}
