//! What the packet router does to one IPv4 packet: read its header, find
//! the first compiled rule for its peer address, and rewrite the header when
//! the rule asks for it.

use vstd::prelude::*;
use crate::config::{pattern_matches, CompiledRule, Config};
use crate::ipv4::{from_octets, octet0, octet1, octet2, octet3};
use crate::routes::InstalledRoute;
use crate::windivert::{flags_checksums_invalid, WinDivertAddress};

verus! {

/// Length of the IPv4 header of a packet: version 4, a header length of at
/// least 20 bytes that the packet holds.
pub open spec fn header_len(p: Seq<u8>) -> Option<int> {
    if p.len() == 0 || (p[0] >> 4u8) != 4 {
        None
    } else {
        let ihl = ((p[0] & 0x0f) as int) * 4;
        if ihl < 20 || p.len() < ihl {
            None
        } else {
            Some(ihl)
        }
    }
}

/// The destination address of an IPv4 packet (the last four header bytes).
pub open spec fn dst_of(p: Seq<u8>) -> Option<u32> {
    match header_len(p) {
        Some(ihl) => Some(from_octets(p[ihl - 4], p[ihl - 3], p[ihl - 2], p[ihl - 1])),
        None => None,
    }
}

/// The source address of an IPv4 packet (bytes 12 to 15).
pub open spec fn src_of(p: Seq<u8>) -> Option<u32> {
    match header_len(p) {
        Some(_) => Some(from_octets(p[12], p[13], p[14], p[15])),
        None => None,
    }
}

/// `p` with `a` written at `at..at + 4` and the header checksum (bytes 10
/// and 11) zeroed.
pub open spec fn with_address(p: Seq<u8>, at: int, a: u32) -> Seq<u8> {
    p.update(at, octet0(a)).update(at + 1, octet1(a)).update(at + 2, octet2(a)).update(
        at + 3,
        octet3(a),
    ).update(10, 0).update(11, 0)
}

/// The first rule that matches a peer address and interface.
pub open spec fn first_match(rules: Seq<CompiledRule>, peer: u32, if_idx: u32) -> Option<CompiledRule>
    decreases rules.len(),
{
    if rules.len() == 0 {
        None
    } else if pattern_matches(rules[0].match_pattern, peer, if_idx) {
        Some(rules[0])
    } else {
        first_match(rules.drop_first(), peer, if_idx)
    }
}

proof fn lemma_first_match(rules: Seq<CompiledRule>, peer: u32, if_idx: u32, i: int)
    requires
        0 <= i <= rules.len(),
        forall|k: int|
            0 <= k < i ==> !pattern_matches((#[trigger] rules[k]).match_pattern, peer, if_idx),
        i < rules.len() ==> pattern_matches(rules[i].match_pattern, peer, if_idx),
    ensures
        first_match(rules, peer, if_idx) == (if i < rules.len() {
            Some(rules[i])
        } else {
            None::<CompiledRule>
        }),
    decreases i,
{
    if i > 0 {
        let r = rules.drop_first();
        assert forall|k: int| 0 <= k < i - 1 implies !pattern_matches(
            (#[trigger] r[k]).match_pattern,
            peer,
            if_idx,
        ) by {
            assert(r[k] == rules[k + 1]);
        }
        if i < rules.len() {
            assert(r[i - 1] == rules[i]);
        }
        assert(!pattern_matches(rules[0].match_pattern, peer, if_idx));
        lemma_first_match(r, peer, if_idx, i - 1);
    }
}

/// The peer address a packet matches on: its destination when outbound,
/// its source when inbound.
pub open spec fn peer_of(p: Seq<u8>, outbound: bool) -> Option<u32> {
    if outbound {
        dst_of(p)
    } else {
        src_of(p)
    }
}

/// The address a packet is rewritten to, when a matching rule asks for one.
pub open spec fn rewrite_target(p: Seq<u8>, if_idx: u32, rules: Seq<CompiledRule>, outbound: bool) -> Option<u32> {
    match peer_of(p, outbound) {
        Some(peer) => match first_match(rules, peer, if_idx) {
            Some(rule) => rule.rewrite_to,
            None => None,
        },
        None => None,
    }
}

/// A packet that is not IPv4 (empty, or of another version) is never
/// rewritten, whatever the rules: it passes through unchanged.
pub proof fn lemma_non_ipv4_passes_through(
    p: Seq<u8>,
    if_idx: u32,
    rules: Seq<CompiledRule>,
    outbound: bool,
)
    requires
        p.len() == 0 || (p[0] >> 4u8) != 4,
    ensures
        rewrite_target(p, if_idx, rules, outbound) is None,
{
}

/// The compiled rules of a running router and the routes it installed.
pub struct PacketRouter {
    pub compiled_rules: Vec<CompiledRule>,
    pub installed_routes: Vec<InstalledRoute>,
}

impl PacketRouter {
    pub fn new(compiled_rules: Vec<CompiledRule>, installed_routes: Vec<InstalledRoute>) -> (r:
        PacketRouter)
        ensures
            r.compiled_rules@ == compiled_rules@,
            r.installed_routes@ == installed_routes@,
    {
        PacketRouter { compiled_rules, installed_routes }
    }

    /// The IPv4 header length of a packet, when it is an IPv4 packet that
    /// holds its whole header.
    pub fn ipv4_header_len(packet: &[u8]) -> (r: Option<usize>)
        ensures
            r matches Some(n) ==> header_len(packet@) == Some(n as int),
            r is None ==> header_len(packet@) is None,
    {
        if packet.len() == 0 {
            return None;
        }
        let first = packet[0];
        if (first >> 4u8) != 4 {
            return None;
        }
        let ihl = ((first & 0x0f) as usize) * 4;
        if ihl < 20 || packet.len() < ihl {
            return None;
        }
        Some(ihl)
    }

    /// The destination address of an IPv4 packet.
    pub fn extract_dst_ipv4(packet: &[u8]) -> (r: Option<u32>)
        ensures
            r == dst_of(packet@),
    {
        let ihl = Self::ipv4_header_len(packet)?;
        let o = ihl - 4;
        Some(crate::ipv4::address_from_octets(packet[o], packet[o + 1], packet[o + 2], packet[o + 3]))
    }

    /// The source address of an IPv4 packet.
    pub fn extract_src_ipv4(packet: &[u8]) -> (r: Option<u32>)
        ensures
            r == src_of(packet@),
    {
        Self::ipv4_header_len(packet)?;
        Some(crate::ipv4::address_from_octets(packet[12], packet[13], packet[14], packet[15]))
    }

    /// Writes `new_ip` as the destination of an IPv4 packet and zeroes its
    /// header checksum; false (and nothing written) for any other packet.
    pub fn rewrite_dst_ipv4(packet: &mut [u8], new_ip: u32) -> (b: bool)
        ensures
            b == (header_len(old(packet)@) is Some),
            b ==> final(packet)@ == with_address(
                old(packet)@,
                header_len(old(packet)@)->0 - 4,
                new_ip,
            ),
            !b ==> final(packet)@ == old(packet)@,
    {
        let o = match Self::ipv4_header_len(packet) {
            Some(ihl) => ihl - 4,
            None => {
                return false;
            },
        };
        let (a, b, c, d) = crate::ipv4::octets(new_ip);
        packet[o] = a;
        packet[o + 1] = b;
        packet[o + 2] = c;
        packet[o + 3] = d;
        packet[10] = 0;
        packet[11] = 0;
        true
    }

    /// Writes `new_ip` as the source of an IPv4 packet and zeroes its header
    /// checksum; false (and nothing written) for any other packet.
    pub fn rewrite_src_ipv4(packet: &mut [u8], new_ip: u32) -> (b: bool)
        ensures
            b == (header_len(old(packet)@) is Some),
            b ==> final(packet)@ == with_address(old(packet)@, 12, new_ip),
            !b ==> final(packet)@ == old(packet)@,
    {
        if Self::ipv4_header_len(packet).is_none() {
            return false;
        }
        let (a, b, c, d) = crate::ipv4::octets(new_ip);
        packet[12] = a;
        packet[13] = b;
        packet[14] = c;
        packet[15] = d;
        packet[10] = 0;
        packet[11] = 0;
        true
    }

    /// Applies the compiled rules to one packet: the first rule matching its
    /// peer address (destination when outbound, source when inbound) and its
    /// interface decides; when that rule has a rewrite address, the
    /// destination (outbound) or source (inbound) is rewritten and the
    /// checksum flags are cleared. True exactly when the header was
    /// rewritten, so that its checksums must be recomputed; otherwise the
    /// packet and its address are left as they were.
    pub fn apply_rules(
        packet: &mut [u8],
        addr: &mut WinDivertAddress,
        compiled_rules: &[CompiledRule],
        outbound: bool,
    ) -> (routed: bool)
        ensures
            routed == (rewrite_target(
                old(packet)@,
                old(addr).network_data().if_idx,
                compiled_rules@,
                outbound,
            ) is Some),
            !routed ==> final(packet)@ == old(packet)@ && *final(addr) == *old(addr),
            routed ==> {
                let a = rewrite_target(
                    old(packet)@,
                    old(addr).network_data().if_idx,
                    compiled_rules@,
                    outbound,
                )->0;
                &&& final(packet)@ == (if outbound {
                    with_address(old(packet)@, header_len(old(packet)@)->0 - 4, a)
                } else {
                    with_address(old(packet)@, 12, a)
                })
                &&& final(addr).flags == flags_checksums_invalid(old(addr).flags)
                &&& final(addr).union_data == old(addr).union_data
                &&& final(addr).timestamp == old(addr).timestamp
                &&& final(addr).reserved2 == old(addr).reserved2
            },
    {
        let match_ip = if outbound {
            Self::extract_dst_ipv4(packet)
        } else {
            Self::extract_src_ipv4(packet)
        };
        let match_ip = match match_ip {
            Some(ip) => ip,
            None => {
                return false;
            },
        };
        let if_idx = addr.network().if_idx;
        let rule = match Config::find_compiled(compiled_rules, match_ip, if_idx) {
            Some(rule) => rule,
            None => {
                proof {
                    lemma_first_match(compiled_rules@, match_ip, if_idx, compiled_rules@.len() as int);
                }
                return false;
            },
        };
        proof {
            let i = choose|i: int|
                0 <= i < compiled_rules@.len() && *rule == compiled_rules@[i] && pattern_matches(
                    (#[trigger] compiled_rules@[i]).match_pattern,
                    match_ip,
                    if_idx,
                ) && forall|k: int|
                    0 <= k < i ==> !pattern_matches(
                        (#[trigger] compiled_rules@[k]).match_pattern,
                        match_ip,
                        if_idx,
                    );
            lemma_first_match(compiled_rules@, match_ip, if_idx, i);
        }
        let new_ip = match rule.rewrite_to {
            Some(a) => a,
            None => {
                return false;
            },
        };
        let header_changed = if outbound {
            Self::rewrite_dst_ipv4(packet, new_ip)
        } else {
            Self::rewrite_src_ipv4(packet, new_ip)
        };
        if header_changed {
            addr.invalidate_checksum_flags();
        }
        true
    }
}

/// Writing a destination and reading it back gives the written address,
/// and leaves the source as it was.
pub proof fn lemma_rewrite_dst_read_back(p: Seq<u8>, a: u32)
    requires
        header_len(p) is Some,
    ensures
        dst_of(with_address(p, header_len(p)->0 - 4, a)) == Some(a),
        src_of(with_address(p, header_len(p)->0 - 4, a)) == src_of(p),
{
    let ihl = header_len(p)->0;
    let q = with_address(p, ihl - 4, a);
    assert(q[0] == p[0]);
    assert(header_len(q) == Some(ihl));
    crate::ipv4::lemma_octets_recompose(a);
    assert(q[12] == p[12] && q[13] == p[13] && q[14] == p[14] && q[15] == p[15]);
}

/// Writing a source and reading it back gives the written address, and
/// leaves the destination as it was when the header is longer than 20 bytes
/// or the addresses coincide.
pub proof fn lemma_rewrite_src_read_back(p: Seq<u8>, a: u32)
    requires
        header_len(p) is Some,
    ensures
        src_of(with_address(p, 12, a)) == Some(a),
        header_len(p)->0 > 20 ==> dst_of(with_address(p, 12, a)) == dst_of(p),
{
    let ihl = header_len(p)->0;
    let q = with_address(p, 12, a);
    assert(q[0] == p[0]);
    assert(header_len(q) == Some(ihl));
    crate::ipv4::lemma_octets_recompose(a);
    if ihl > 20 {
        assert(q[ihl - 4] == p[ihl - 4] && q[ihl - 3] == p[ihl - 3] && q[ihl - 2] == p[ihl - 2]
            && q[ihl - 1] == p[ihl - 1]);
    }
}

} // verus!
