use roust::config::{CompiledRule, DestinationKind, MatchPattern, RoutingRule, TargetKind};
use roust::cidr::Ipv4Net;
use roust::interfaces::{build_adapter_maps, find_interface, if_type_label, predict_ipv4_egress, NetworkInterface};
use roust::ipv4::address_from_octets as ip;
use roust::lists::{host_list, strip_subnet};
use roust::routes::{
    discover_external_routes, gateway_from_forward_table, host_route_exists, is_loopback_prefix,
    is_multicast_prefix, prefix_mask, read_applied_ipv4_routes, route_add_succeeded, route_plan,
    rule_identity_key, system_row_to_rule, SystemRouteRow,
};

fn row(dest: u32, prefix_len: u8, gateway: u32, if_index: u32) -> SystemRouteRow {
    SystemRouteRow { dest, prefix_len, gateway, if_index }
}

fn nic(name: &str, friendly: Option<&str>, gw: Option<u32>, if_index: u32, mac: &str, ipv4: Option<&str>) -> NetworkInterface {
    NetworkInterface {
        name: name.to_string(),
        display_name: format!("{name} adapter"),
        friendly_name: friendly.map(|s| s.to_string()),
        default_gateway: gw,
        if_index,
        mac_address: mac.to_string(),
        ipv4_address: ipv4.map(|s| s.to_string()),
        status: "Up".to_string(),
    }
}

#[test]
fn system_row_to_rule_uses_ip_for_host_route() {
    let r = row(ip(104, 19, 223, 79), 32, ip(10, 20, 9, 254), 6);
    let rule = system_row_to_rule(&r);
    assert_eq!(rule.target, TargetKind::Ip);
    assert_eq!(rule.target_value, "104.19.223.79");
    assert_eq!(rule.destination, DestinationKind::Ip);
    assert_eq!(rule.destination_value, "10.20.9.254");
    let net = system_row_to_rule(&row(ip(10, 0, 0, 0), 8, ip(10, 20, 9, 254), 6));
    assert_eq!(net.target, TargetKind::Cidr);
    assert_eq!(net.target_value, "10.0.0.0/8");
}

#[test]
fn discover_external_routes_skips_configured_matches() {
    let configured = vec![RoutingRule {
        target: TargetKind::Cidr,
        target_value: "10.0.0.0/8".to_string(),
        destination: DestinationKind::Ip,
        destination_value: "10.20.9.254".to_string(),
    }];
    let table = vec![
        row(ip(10, 0, 0, 0), 8, ip(10, 20, 9, 254), 6),
        row(ip(172, 16, 0, 0), 12, ip(10, 20, 9, 254), 6),
    ];
    let external = discover_external_routes(&configured, &table);
    assert!(
        !external.iter().any(|rule| rule.target_value == "10.0.0.0/8"),
        "configured route must not appear twice as system route"
    );
    assert_eq!(external.len(), 1);
    assert_eq!(external[0].target_value, "172.16.0.0/12");
}

#[test]
fn applied_routes_filter_dedup_and_sort() {
    let table = vec![
        row(ip(192, 168, 0, 0), 16, ip(10, 0, 0, 1), 3),
        row(0, 0, ip(10, 0, 0, 1), 3),
        row(ip(127, 0, 0, 0), 8, ip(10, 0, 0, 1), 3),
        row(ip(224, 0, 0, 0), 4, ip(10, 0, 0, 1), 3),
        row(ip(8, 8, 8, 8), 32, 0, 3),
        row(ip(10, 0, 0, 0), 8, ip(10, 0, 0, 2), 3),
        row(ip(10, 0, 0, 0), 8, ip(10, 0, 0, 1), 4),
        row(ip(192, 168, 0, 0), 16, ip(10, 0, 0, 1), 3),
    ];
    let applied = read_applied_ipv4_routes(&table);
    assert_eq!(
        applied,
        vec![
            row(ip(10, 0, 0, 0), 8, ip(10, 0, 0, 1), 4),
            row(ip(10, 0, 0, 0), 8, ip(10, 0, 0, 2), 3),
            row(ip(192, 168, 0, 0), 16, ip(10, 0, 0, 1), 3),
        ]
    );
    assert!(host_route_exists(&[row(ip(1, 1, 1, 1), 32, ip(10, 0, 0, 1), 3)], ip(1, 1, 1, 1)));
    assert!(!host_route_exists(&[row(ip(1, 1, 1, 1), 24, ip(10, 0, 0, 1), 3)], ip(1, 1, 1, 1)));
}

#[test]
fn route_prefix_helpers() {
    assert!(is_loopback_prefix(ip(127, 0, 0, 1), 32));
    assert!(is_loopback_prefix(ip(127, 1, 0, 0), 16));
    assert!(!is_loopback_prefix(ip(10, 0, 0, 0), 0));
    assert!(is_multicast_prefix(ip(239, 1, 1, 1), 32));
    assert!(is_multicast_prefix(ip(224, 0, 0, 0), 4));
    assert!(!is_multicast_prefix(ip(10, 0, 0, 0), 8));
    assert_eq!(prefix_mask(0), 0);
    assert_eq!(prefix_mask(32), 0xffff_ffff);
    assert_eq!(prefix_mask(24), u32::from_be(0xffff_ff00));
    assert!(route_add_succeeded(false, "The route addition failed: The object already exists.", ""));
    assert!(!route_add_succeeded(false, "bad", "worse"));
}

#[test]
fn route_plan_and_default_gateway() {
    let rules = vec![
        CompiledRule {
            label: "a".into(),
            gateway: ip(10, 0, 0, 1),
            match_pattern: MatchPattern::Network(Ipv4Net { addr: ip(10, 1, 2, 3), prefix: 8 }),
            if_index: 4,
            egress_ipv4: None,
            rewrite_to: None,
        },
        CompiledRule {
            label: "b".into(),
            gateway: ip(10, 0, 0, 1),
            match_pattern: MatchPattern::Interface(4),
            if_index: 4,
            egress_ipv4: None,
            rewrite_to: None,
        },
        CompiledRule {
            label: "c".into(),
            gateway: ip(10, 0, 0, 9),
            match_pattern: MatchPattern::Ip(ip(8, 8, 8, 8)),
            if_index: 5,
            egress_ipv4: None,
            rewrite_to: None,
        },
    ];
    let plan = route_plan(&rules);
    assert_eq!(plan.len(), 2);
    assert_eq!(plan[0].dest, ip(10, 0, 0, 0));
    assert_eq!(plan[0].prefix_len, 8);
    assert_eq!(plan[1].dest, ip(8, 8, 8, 8));
    assert_eq!(plan[1].prefix_len, 32);
    let table = vec![row(0, 0, 0, 4), row(0, 0, ip(10, 0, 0, 1), 4)];
    assert_eq!(gateway_from_forward_table(&table, 4).unwrap(), ip(10, 0, 0, 1));
    assert_eq!(
        gateway_from_forward_table(&table, 9).unwrap_err().to_string(),
        "no 0.0.0.0/0 route on interface index 9"
    );
    let key = rule_identity_key(&RoutingRule {
        target: TargetKind::Cidr,
        target_value: " 10.0.0.0/8 ".into(),
        destination: DestinationKind::Mac,
        destination_value: " aa ".into(),
    });
    assert_eq!(key, "cidr:10.0.0.0/8|mac:aa");
}

#[test]
fn adapters_and_interfaces() {
    let ifs = vec![
        nic("{GUID-1}", Some("Ethernet"), Some(ip(192, 168, 1, 1)), 7, "aa-bb-cc-dd-ee-01", Some("192.168.1.20")),
        nic("{GUID-2}", Some("Wi-Fi"), None, 9, "aa-bb-cc-dd-ee-02", Some("0.0.0.0")),
        nic("{GUID-3}", None, None, 11, "aa-bb-cc-dd-ee-03", None),
    ];
    let table = vec![row(0, 0, ip(10, 0, 0, 1), 9)];
    let (macs, nics, gws) = build_adapter_maps(&ifs, &table);
    let e = nics.get("ethernet").unwrap();
    assert_eq!(e.if_index, 7);
    assert_eq!(e.egress_ipv4, Some(ip(192, 168, 1, 20)));
    let w = nics.get("wi-fi").unwrap();
    assert_eq!(w.gateway, ip(10, 0, 0, 1));
    assert_eq!(w.egress_ipv4, None);
    assert!(macs.get("AA-BB-CC-DD-EE-02").is_some());
    assert!(nics.get("{guid-3}").is_none());
    assert_eq!(gws.get(ip(192, 168, 1, 1)).unwrap().if_index, 7);
    assert_eq!(find_interface(&ifs, "WI-FI").unwrap().if_index, 9);
    assert!(find_interface(&ifs, "missing").is_none());
    assert!(ifs[0].matches_alias("{guid-1} ADAPTER"));
    let p = predict_ipv4_egress(ip(8, 8, 8, 8), 9, ip(10, 0, 0, 1), &ifs);
    assert_eq!(p.nic_name, Some("{GUID-2}".to_string()));
    assert_eq!(p.nic_friendly, Some("Wi-Fi".to_string()));
    assert_eq!(if_type_label(71), "WiFi");
    assert_eq!(if_type_label(24), "Type(24)");
}

#[test]
fn strip_subnet_ipv4() {
    assert_eq!(strip_subnet("2.57.3.0/24"), "2.57.3.0");
    assert_eq!(strip_subnet("2.144.0.0/14"), "2.144.0.0");
}

#[test]
fn strip_subnet_ipv6() {
    assert_eq!(strip_subnet("2001:678:b0::/46"), "2001:678:b0::");
}

#[test]
fn strip_subnet_without_prefix_and_lists() {
    assert_eq!(strip_subnet(" 10.0.0.1 "), "10.0.0.1");
    assert_eq!(
        host_list(&["1.2.3.0/24".to_string(), "a/b/c".to_string()]),
        vec!["1.2.3.0".to_string(), "a".to_string()]
    );
}
