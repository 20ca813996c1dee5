use roust::config::{
    validate_destination_value, validate_ipv4, validate_target, CompiledRule, Config,
    ConfigError, DestinationKind, MatchPattern, RoutingRule, TargetKind,
};
use roust::ipv4::address_from_octets;
use roust::tables::{GatewayTable, MacEntry, NameTable};

fn sample_rule() -> RoutingRule {
    RoutingRule {
        target: TargetKind::Cidr,
        target_value: "10.0.0.0/8".to_string(),
        destination: DestinationKind::Ip,
        destination_value: "192.168.1.1".to_string(),
    }
}

fn rule(target: TargetKind, tv: &str, destination: DestinationKind, dv: &str) -> RoutingRule {
    RoutingRule {
        target,
        target_value: tv.to_string(),
        destination,
        destination_value: dv.to_string(),
    }
}

fn make_entry(if_index: u32, gw: u32) -> MacEntry {
    MacEntry { if_index, gateway: gw, egress_ipv4: None }
}

#[test]
fn test_load_new_format() {
    let config = Config::from_rules(vec![sample_rule()]).ok().unwrap();
    assert_eq!(config.rules[0].target, TargetKind::Cidr);
    assert_eq!(config.rules[0].destination, DestinationKind::Ip);
}

#[test]
fn test_reject_plain_ip_as_cidr_target() {
    let err = Config::from_rules(vec![rule(TargetKind::Cidr, "8.8.8.8", DestinationKind::Ip, "192.168.1.1")])
        .err()
        .unwrap();
    assert!(err.to_string().contains("prefix"));
}

#[test]
fn test_reject_cidr_as_ip_target() {
    let err = Config::from_rules(vec![rule(TargetKind::Ip, "8.8.8.8/32", DestinationKind::Ip, "192.168.1.1")])
        .err()
        .unwrap();
    assert!(err.to_string().contains("plain IPv4"));
}

#[test]
fn test_reject_overlapping_cidr_targets() {
    let err = Config::from_rules(vec![
        rule(TargetKind::Cidr, "10.0.0.0/8", DestinationKind::Ip, "192.168.1.1"),
        rule(TargetKind::Cidr, "10.1.0.0/16", DestinationKind::Ip, "192.168.1.2"),
    ])
    .err()
    .unwrap();
    assert!(err.to_string().contains("overlapping CIDR"));
}

#[test]
fn test_compile_mac_destination() {
    let mut config = Config::new();
    config.add_rule(sample_rule()).unwrap();
    let mut mac_map = NameTable::new();
    mac_map.insert("AA:BB:CC:DD:EE:FF", make_entry(42, address_from_octets(10, 0, 0, 1)));
    let mut gw_map = GatewayTable::new();
    gw_map.insert(
        address_from_octets(192, 168, 1, 1),
        make_entry(42, address_from_octets(192, 168, 1, 1)),
    );
    let compiled = config.compile_rules(&mac_map, &NameTable::new(), &gw_map).unwrap();
    assert_eq!(compiled[0].if_index, 42);
}

#[test]
fn test_compile_nic_destination() {
    let mut config = Config::new();
    config
        .add_rule(rule(TargetKind::Cidr, "10.0.0.0/8", DestinationKind::Nic, "Ethernet"))
        .unwrap();
    let mut nic_map = NameTable::new();
    nic_map.insert("ethernet", make_entry(9, address_from_octets(10, 0, 0, 1)));
    let compiled = config.compile_rules(&NameTable::new(), &nic_map, &GatewayTable::new()).unwrap();
    assert_eq!(compiled[0].if_index, 9);
}

#[test]
fn test_find_compiled_cidr() {
    let mut config = Config::new();
    config
        .add_rule(rule(TargetKind::Cidr, "192.168.1.0/24", DestinationKind::Mac, "AA:BB:CC:DD:EE:01"))
        .unwrap();
    let mut mac_map = NameTable::new();
    mac_map.insert("AA:BB:CC:DD:EE:01", make_entry(1, address_from_octets(10, 0, 0, 1)));
    let compiled = config.compile_rules(&mac_map, &NameTable::new(), &GatewayTable::new()).unwrap();
    let hit = Config::find_compiled(&compiled, address_from_octets(192, 168, 1, 50), 0);
    assert!(hit.is_some());
    assert_eq!(hit.unwrap().if_index, 1);
}

#[test]
fn test_find_compiled_interface_target() {
    let mut config = Config::new();
    config
        .add_rule(rule(TargetKind::Nic, "Wi-Fi", DestinationKind::Mac, "AA:BB:CC:DD:EE:01"))
        .unwrap();
    let mut nic_map = NameTable::new();
    nic_map.insert("wi-fi", make_entry(7, address_from_octets(10, 0, 0, 1)));
    let mut mac_map = NameTable::new();
    mac_map.insert("AA:BB:CC:DD:EE:01", make_entry(1, address_from_octets(10, 0, 0, 1)));
    let compiled = config.compile_rules(&mac_map, &nic_map, &GatewayTable::new()).unwrap();
    let hit = Config::find_compiled(&compiled, address_from_octets(1, 2, 3, 4), 7);
    assert!(hit.is_some());
    let miss = Config::find_compiled(&compiled, address_from_octets(1, 2, 3, 4), 3);
    assert!(miss.is_none());
}

#[test]
fn routing_rule_label_and_messages() {
    assert_eq!(sample_rule().label(), "cidr:10.0.0.0/8 → ip:192.168.1.1");
    assert_eq!(
        ConfigError::RuleIndexNotFound(7).to_string(),
        "rule index 7 not found"
    );
    assert_eq!(
        validate_target(TargetKind::Mac, "zz").unwrap_err().to_string(),
        "target-value \"zz\" is not a valid MAC address (expected AA:BB:CC:DD:EE:FF)"
    );
    assert_eq!(
        validate_destination_value(DestinationKind::Nic, "  ").unwrap_err(),
        ConfigError::EmptyDestinationValue
    );
    assert_eq!(validate_ipv4(" 10.0.0.1 ").unwrap(), address_from_octets(10, 0, 0, 1));
    assert_eq!(
        validate_ipv4("10.0.0.256").unwrap_err().to_string(),
        "invalid IPv4 address \"10.0.0.256\""
    );
    assert!(validate_ipv4("010.0.0.1").is_err());
}

#[test]
fn routing_replace_and_remove_keep_targets_clear() {
    let mut config = Config::new();
    config.add_rule(sample_rule()).unwrap();
    config
        .add_rule(rule(TargetKind::Cidr, "172.16.0.0/12", DestinationKind::Ip, "192.168.1.1"))
        .unwrap();
    let err = config
        .replace_rule_at(1, rule(TargetKind::Cidr, "10.5.0.0/16", DestinationKind::Ip, "192.168.1.1"))
        .unwrap_err();
    assert_eq!(
        err.to_string(),
        "overlapping CIDR targets \"10.5.0.0/16\" and \"10.0.0.0/8\""
    );
    config
        .replace_rule_at(0, rule(TargetKind::Cidr, "10.5.0.0/16", DestinationKind::Ip, "192.168.1.1"))
        .unwrap();
    assert_eq!(config.rules[0].target_value, "10.5.0.0/16");
    assert_eq!(
        config.replace_rule_at(9, sample_rule()).unwrap_err(),
        ConfigError::RuleIndexNotFound(9)
    );
    assert!(config.remove_rule_at(0));
    assert!(!config.remove_rule_at(5));
    assert_eq!(config.get_rules().len(), 1);
}

#[test]
fn routing_import_requires_json_path() {
    assert_eq!(
        Config::parse_import_file("rules.txt", vec![sample_rule()]).unwrap_err(),
        ConfigError::ImportNotJson
    );
    let rules = Config::parse_import_file(r"C:\x\Rules.Json", vec![sample_rule()]).unwrap();
    assert_eq!(rules.len(), 1);
}

#[test]
fn routing_compiled_rule_matches() {
    let c = CompiledRule {
        label: "x".to_string(),
        gateway: 0,
        match_pattern: MatchPattern::Ip(address_from_octets(8, 8, 8, 8)),
        if_index: 1,
        egress_ipv4: None,
        rewrite_to: None,
    };
    assert!(c.matches(address_from_octets(8, 8, 8, 8), 99));
    assert!(!c.matches(address_from_octets(8, 8, 4, 4), 1));
}
