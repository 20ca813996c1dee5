use roust::cidr::Ipv4Net;
use roust::config::{CompiledRule, MatchPattern};
use roust::ipv4::address_from_octets as ip;
use roust::packet::PacketRouter;
use roust::windivert::{WinDivertAddress, WinDivertDataNetwork};

fn sample_ipv4_packet(src: [u8; 4], dst: [u8; 4]) -> Vec<u8> {
    vec![
        0x45, 0x00, 0x00, 0x1c, // ver/ihl, tos, total length
        0, 0, 0, 0, 0, 0, 0, 0, // id, flags, ttl, proto, checksum
        src[0], src[1], src[2], src[3], dst[0], dst[1], dst[2], dst[3],
    ]
}

fn rule(pattern: MatchPattern, rewrite_to: Option<u32>) -> CompiledRule {
    CompiledRule {
        label: "212.80.19.12".to_string(),
        gateway: ip(192, 168, 1, 1),
        match_pattern: pattern,
        if_index: 21,
        egress_ipv4: Some(ip(192, 168, 1, 101)),
        rewrite_to,
    }
}

#[test]
fn extract_src_and_dst() {
    let pkt = sample_ipv4_packet([10, 0, 0, 1], [8, 8, 8, 8]);
    assert_eq!(PacketRouter::extract_src_ipv4(&pkt), Some(ip(10, 0, 0, 1)));
    assert_eq!(PacketRouter::extract_dst_ipv4(&pkt), Some(ip(8, 8, 8, 8)));
}

#[test]
fn route_only_rule_does_not_edit_packets() {
    let mut pkt = sample_ipv4_packet([10, 138, 172, 26], [212, 80, 19, 12]);
    let mut addr = WinDivertAddress::zeroed();
    let rules = vec![rule(MatchPattern::Ip(ip(212, 80, 19, 12)), None)];
    assert!(!PacketRouter::apply_rules(&mut pkt, &mut addr, &rules, true));
    assert_eq!(PacketRouter::extract_src_ipv4(&pkt), Some(ip(10, 138, 172, 26)));
}

#[test]
fn rewrite_src_changes_address() {
    let mut pkt = sample_ipv4_packet([10, 0, 0, 1], [8, 8, 8, 8]);
    assert!(PacketRouter::rewrite_src_ipv4(&mut pkt, ip(192, 168, 1, 1)));
    assert_eq!(PacketRouter::extract_src_ipv4(&pkt), Some(ip(192, 168, 1, 1)));
    assert_eq!(pkt[10], 0);
    assert_eq!(pkt[11], 0);
}

#[test]
fn packet_rewrite_on_match_clears_checksum_flags() {
    let mut pkt = sample_ipv4_packet([10, 0, 0, 1], [8, 8, 8, 8]);
    pkt[10] = 0xab;
    pkt[11] = 0xcd;
    let mut addr = WinDivertAddress::zeroed();
    addr.flags = (1 << 17) | (1 << 21) | (1 << 22) | (1 << 23) | 1;
    let rules = vec![
        rule(MatchPattern::Network(Ipv4Net { addr: ip(9, 0, 0, 0), prefix: 8 }), Some(ip(1, 1, 1, 1))),
        rule(MatchPattern::Network(Ipv4Net { addr: ip(8, 0, 0, 0), prefix: 8 }), Some(ip(9, 9, 9, 9))),
    ];
    assert!(addr.is_outbound());
    assert!(PacketRouter::apply_rules(&mut pkt, &mut addr, &rules, true));
    assert_eq!(PacketRouter::extract_dst_ipv4(&pkt), Some(ip(9, 9, 9, 9)));
    assert_eq!(PacketRouter::extract_src_ipv4(&pkt), Some(ip(10, 0, 0, 1)));
    assert_eq!((pkt[10], pkt[11]), (0, 0));
    assert_eq!(addr.flags, (1 << 17) | 1);
    assert!(addr.is_outbound());
}

#[test]
fn packet_inbound_rewrites_source_and_skips_non_ipv4() {
    let mut pkt = sample_ipv4_packet([8, 8, 4, 4], [10, 0, 0, 1]);
    let mut addr = WinDivertAddress::zeroed();
    let rules = vec![rule(MatchPattern::Ip(ip(8, 8, 4, 4)), Some(ip(1, 2, 3, 4)))];
    assert!(PacketRouter::apply_rules(&mut pkt, &mut addr, &rules, false));
    assert_eq!(PacketRouter::extract_src_ipv4(&pkt), Some(ip(1, 2, 3, 4)));
    assert_eq!(PacketRouter::extract_dst_ipv4(&pkt), Some(ip(10, 0, 0, 1)));

    let mut v6 = vec![0x60u8; 40];
    let before = v6.clone();
    assert_eq!(PacketRouter::ipv4_header_len(&v6), None);
    assert!(!PacketRouter::apply_rules(&mut v6, &mut addr, &rules, false));
    assert_eq!(v6, before);
    let short = vec![0x46u8; 20];
    assert_eq!(PacketRouter::ipv4_header_len(&short), None);
    assert!(!PacketRouter::rewrite_dst_ipv4(&mut vec![], ip(1, 1, 1, 1)));
}

#[test]
fn packet_interface_rule_uses_address_interface() {
    let mut pkt = sample_ipv4_packet([10, 0, 0, 1], [8, 8, 8, 8]);
    let mut addr = WinDivertAddress::zeroed();
    addr.set_network(WinDivertDataNetwork { if_idx: 21, sub_if_idx: 3 });
    assert_eq!(addr.network(), WinDivertDataNetwork { if_idx: 21, sub_if_idx: 3 });
    assert_eq!(addr.union_data[0], 21);
    assert_eq!(addr.union_data[4], 3);
    let rules = vec![rule(MatchPattern::Interface(21), Some(ip(7, 7, 7, 7)))];
    assert!(PacketRouter::apply_rules(&mut pkt, &mut addr, &rules, true));
    assert_eq!(PacketRouter::extract_dst_ipv4(&pkt), Some(ip(7, 7, 7, 7)));
    let router = PacketRouter::new(rules, vec![]);
    assert_eq!(router.compiled_rules.len(), 1);
}
