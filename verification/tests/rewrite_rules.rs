use roust::rewrite::{
    classify_rewrite_target, validate_cidr, Config, ImportedJson, RewriteTargetKind, RoutingRule,
    RoutingRuleInput, RuleError,
};
use roust::tables::{GatewayTable, MacEntry, NameTable};
use roust::ipv4::address_from_octets;

fn input(cidr: &str) -> RoutingRuleInput {
    RoutingRuleInput {
        cidr: cidr.to_string(),
        rewrite_to: None,
        mac: None,
        nic: None,
        gateway: None,
        legacy_nic: None,
    }
}

fn with_target(cidr: &str, rewrite_to: &str) -> RoutingRuleInput {
    let mut i = input(cidr);
    i.rewrite_to = Some(rewrite_to.to_string());
    i
}

fn make_entry(if_index: u32, gw: u32) -> MacEntry {
    MacEntry { if_index, gateway: gw, egress_ipv4: None }
}

#[test]
fn test_reject_deprecated_nic_field() {
    let mut i = input("10.0.0.0/8");
    i.legacy_nic = Some("Ethernet".to_string());
    let err = Config::from_inputs(vec![i]).err().unwrap();
    assert!(err.to_string().contains("deprecated"));
}

#[test]
fn test_reject_rule_without_rewrite_to() {
    let err = Config::from_inputs(vec![input("10.0.0.0/8")]).err().unwrap();
    assert!(err.to_string().contains("rewrite-to"));
}

#[test]
fn test_reject_plain_ip() {
    let err = Config::from_inputs(vec![with_target("8.8.8.8", "192.168.1.1")]).err().unwrap();
    assert!(err.to_string().contains("CIDR"));
}

#[test]
fn test_reject_wildcard() {
    let err = Config::from_inputs(vec![with_target("*", "192.168.1.1")]).err().unwrap();
    assert!(err.to_string().contains("CIDR"));
}

#[test]
fn test_load_rewrite_to_mac() {
    let config = Config::from_inputs(vec![with_target("10.0.0.0/8", "AA:BB:CC:DD:EE:FF")]).ok().unwrap();
    assert_eq!(config.rules[0].rewrite_to, "AA:BB:CC:DD:EE:FF");
}

#[test]
fn test_load_rewrite_to_nic() {
    let config = Config::from_inputs(vec![with_target("10.0.0.0/8", "Wi-Fi")]).ok().unwrap();
    assert_eq!(config.rules[0].rewrite_to, "Wi-Fi");
}

#[test]
fn test_load_rewrite_to_gateway() {
    let config = Config::from_inputs(vec![with_target("10.0.0.0/8", "192.168.1.1")]).ok().unwrap();
    assert_eq!(config.rules[0].rewrite_to, "192.168.1.1");
}

#[test]
fn test_load_legacy_route_to_fields() {
    let mut a = input("10.0.0.0/8");
    a.mac = Some("AA:BB:CC:DD:EE:FF".to_string());
    let mut b = input("172.16.0.0/12");
    b.nic = Some("Ethernet".to_string());
    let mut c = input("192.168.0.0/16");
    c.gateway = Some("192.168.1.1".to_string());
    let config = Config::from_inputs(vec![a, b, c]).ok().unwrap();
    assert_eq!(config.rules[0].rewrite_to, "AA:BB:CC:DD:EE:FF");
    assert_eq!(config.rules[1].rewrite_to, "Ethernet");
    assert_eq!(config.rules[2].rewrite_to, "192.168.1.1");
}

#[test]
fn test_reject_duplicate_cidr_in_json() {
    let err = Config::from_inputs(vec![
        with_target("10.0.0.0/8", "192.168.1.1"),
        with_target("10.0.0.0/8", "192.168.1.2"),
    ])
    .err()
    .unwrap();
    assert!(err.to_string().contains("duplicate CIDR"));
}

#[test]
fn test_reject_equivalent_cidr_in_json() {
    let err = Config::from_inputs(vec![
        with_target("10.0.0.0/8", "192.168.1.1"),
        with_target("10.0.0.1/8", "192.168.1.2"),
    ])
    .err()
    .unwrap();
    assert!(err.to_string().contains("duplicate CIDR"));
}

#[test]
fn test_reject_overlapping_cidr_in_json() {
    let err = Config::from_inputs(vec![
        with_target("10.0.0.0/8", "192.168.1.1"),
        with_target("10.1.0.0/16", "192.168.1.2"),
    ])
    .err()
    .unwrap();
    assert!(err.to_string().contains("overlapping CIDR"));
}

#[test]
fn test_reject_overlapping_cidr_on_add_rule() {
    let mut config = Config::new();
    config
        .add_rule("10.0.0.0/8".to_string(), "192.168.1.1".to_string())
        .unwrap();
    let err = config
        .add_rule("10.1.0.0/16".to_string(), "192.168.1.2".to_string())
        .unwrap_err();
    assert!(err.to_string().contains("overlapping CIDR"));
}

#[test]
fn test_classify_rewrite_target() {
    assert_eq!(
        classify_rewrite_target("192.168.1.1").unwrap(),
        RewriteTargetKind::Gateway("192.168.1.1".into())
    );
    assert_eq!(
        classify_rewrite_target("AA-BB-CC-DD-EE-FF").unwrap(),
        RewriteTargetKind::Mac("AA:BB:CC:DD:EE:FF".into())
    );
    assert_eq!(
        classify_rewrite_target("Ethernet").unwrap(),
        RewriteTargetKind::Nic("Ethernet".into())
    );
}

#[test]
fn test_compile_mac_target() {
    let mut config = Config::new();
    config
        .add_rule("10.0.0.0/8".to_string(), "AA:BB:CC:DD:EE:FF".to_string())
        .unwrap();
    let mut mac_map = NameTable::new();
    mac_map.insert("AA:BB:CC:DD:EE:FF", make_entry(42, address_from_octets(10, 0, 0, 1)));
    let compiled = config.compile_rules(&mac_map, &NameTable::new(), &GatewayTable::new()).unwrap();
    assert_eq!(compiled[0].if_index, 42);
}

#[test]
fn test_compile_nic_target() {
    let mut config = Config::new();
    config.add_rule("10.0.0.0/8".to_string(), "Ethernet".to_string()).unwrap();
    let mut nic_map = NameTable::new();
    nic_map.insert("ethernet", make_entry(9, address_from_octets(10, 0, 0, 1)));
    let compiled = config.compile_rules(&NameTable::new(), &nic_map, &GatewayTable::new()).unwrap();
    assert_eq!(compiled[0].if_index, 9);
}

#[test]
fn test_compile_gateway_target() {
    let mut config = Config::new();
    config.add_rule("10.0.0.0/8".to_string(), "192.168.1.1".to_string()).unwrap();
    let mut gw_map = GatewayTable::new();
    gw_map.insert(
        address_from_octets(192, 168, 1, 1),
        make_entry(5, address_from_octets(192, 168, 1, 1)),
    );
    let compiled = config.compile_rules(&NameTable::new(), &NameTable::new(), &gw_map).unwrap();
    assert_eq!(compiled[0].if_index, 5);
}

#[test]
fn test_find_compiled() {
    let mut config = Config::new();
    config
        .add_rule("192.168.1.0/24".to_string(), "AA:BB:CC:DD:EE:01".to_string())
        .unwrap();
    let mut mac_map = NameTable::new();
    mac_map.insert("AA:BB:CC:DD:EE:01", make_entry(1, address_from_octets(10, 0, 0, 1)));
    let compiled = config.compile_rules(&mac_map, &NameTable::new(), &GatewayTable::new()).unwrap();
    let hit = Config::find_compiled(&compiled, address_from_octets(192, 168, 1, 50));
    assert!(hit.is_some());
    assert_eq!(hit.unwrap().if_index, 1);
    assert!(Config::find_compiled(&compiled, address_from_octets(192, 168, 2, 1)).is_none());
}

#[test]
fn rewrite_compile_reports_missing_mac() {
    let mut config = Config::new();
    config.add_rule("10.0.0.0/8".to_string(), "aa-bb-cc-dd-ee-ff".to_string()).unwrap();
    let err = config
        .compile_rules(&NameTable::new(), &NameTable::new(), &GatewayTable::new())
        .err()
        .unwrap();
    assert_eq!(
        err.to_string(),
        "routing rule 10.0.0.0/8 → MAC AA:BB:CC:DD:EE:FF not found on any local interface"
    );
}

#[test]
fn rewrite_add_rule_trims_and_requires_target() {
    let mut config = Config::new();
    let err = config.add_rule("10.0.0.0/8".to_string(), "   ".to_string()).unwrap_err();
    assert_eq!(err, RuleError::RewriteToRequired);
    assert!(config.rules.is_empty());
    config.add_rule("10.0.0.0/8".to_string(), "  Wi-Fi ".to_string()).unwrap();
    assert_eq!(config.rules[0].rewrite_to, "Wi-Fi");
}

#[test]
fn rewrite_remove_rule_by_exact_cidr() {
    let mut config = Config::new();
    config.add_rule("10.0.0.0/8".to_string(), "Wi-Fi".to_string()).unwrap();
    config.add_rule("192.168.0.0/16".to_string(), "Ethernet".to_string()).unwrap();
    assert!(!config.remove_rule("10.0.0.0/9"));
    assert!(config.remove_rule("10.0.0.0/8"));
    assert_eq!(config.get_rules().len(), 1);
    assert_eq!(config.get_rules()[0].cidr, "192.168.0.0/16");
    config.add_rule("10.0.0.0/8".to_string(), "Wi-Fi".to_string()).unwrap();
    assert_eq!(config.get_rules().len(), 2);
}

#[test]
fn rewrite_validate_cidr_errors() {
    assert_eq!(
        validate_cidr(" * ").unwrap_err().to_string(),
        "routing rule \"*\" must be a CIDR block (e.g. 10.0.0.0/8); wildcards are not supported"
    );
    assert_eq!(
        validate_cidr("8.8.8.8").unwrap_err().to_string(),
        "routing rule \"8.8.8.8\" must be a CIDR block (e.g. 10.0.0.0/8), not a plain IP address"
    );
    assert_eq!(
        validate_cidr("2001:db8::/32").unwrap_err().to_string(),
        "routing rule \"2001:db8::/32\" must be an IPv4 CIDR block"
    );
    assert!(validate_cidr("10.0.0.0/33").is_err());
    let net = validate_cidr("10.1.2.3/8").unwrap();
    assert_eq!(net.prefix, 8);
    assert_eq!(net.network_address(), address_from_octets(10, 0, 0, 0));
}

#[test]
fn rewrite_import_text_lines() {
    let rules = Config::parse_import_file(
        " 10.0.0.0/8 \r\n\n172.16.0.0/12\n",
        "list.txt",
        ImportedJson::Unreadable(String::new()),
    )
    .unwrap();
    assert_eq!(rules.len(), 2);
    assert_eq!(rules[0].cidr, "10.0.0.0/8");
    assert_eq!(rules[0].rewrite_to, "");
    assert_eq!(rules[1].cidr, "172.16.0.0/12");
}

#[test]
fn rewrite_import_json_variants() {
    let cidrs = Config::parse_import_file(
        "",
        "list.JSON",
        ImportedJson::Cidrs(vec!["10.0.0.0/8".to_string(), "10.2.0.0/16".to_string()]),
    )
    .unwrap_err();
    assert!(cidrs.to_string().contains("overlapping CIDR blocks"));
    let rules = Config::parse_import_file(
        "",
        "rules.json",
        ImportedJson::Rules(vec![RoutingRule {
            cidr: "10.0.0.0/8".to_string(),
            rewrite_to: "Wi-Fi".to_string(),
        }]),
    )
    .unwrap();
    assert_eq!(rules[0].rewrite_to, "Wi-Fi");
    let bad = Config::parse_import_file("", "x.json", ImportedJson::Unreadable("oops".to_string()))
        .unwrap_err();
    assert!(bad.to_string().starts_with("JSON import must be"));
}
