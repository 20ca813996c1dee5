//! IPv4 CIDR blocks: parsing through `ipnetwork`, and the address arithmetic
//! of network, broadcast, containment and overlap.

use vstd::prelude::*;
use crate::text::{has_char, trim, trimmed, to_chars};

verus! {

/// How `ipnetwork` reads a network text.
pub enum NetworkParse {
    V4 { addr: u32, prefix: u8 },
    V6,
    Invalid,
}

/// What `<ipnetwork::IpNetwork as FromStr>::from_str` gives for a text: an
/// IPv4 network (its address as written and its prefix), an IPv6 network, or
/// an error.
pub uninterp spec fn ip_network_parse(text: Seq<char>) -> NetworkParse;

/// Calls `<ipnetwork::IpNetwork as FromStr>::from_str`. The contract names the
/// result, and states the one fact the crate's `Ipv4Network::new_checked`
/// guarantees: an IPv4 prefix is at most 32.
#[verifier::external_body]
pub(crate) fn parse_ip_network(text: &str) -> (r: NetworkParse)
    ensures
        r == ip_network_parse(text@),
        r matches NetworkParse::V4 { prefix, .. } ==> prefix <= 32,
{
    match text.parse::<ipnetwork::IpNetwork>() {
        Ok(ipnetwork::IpNetwork::V4(net)) => NetworkParse::V4 {
            addr: u32::from(net.ip()),
            prefix: net.prefix(),
        },
        Ok(ipnetwork::IpNetwork::V6(_)) => NetworkParse::V6,
        Err(_) => NetworkParse::Invalid,
    }
}

/// An IPv4 network: an address as written and a prefix length.
#[derive(Clone, Copy, Debug, PartialEq, Eq, Structural)]
pub struct Ipv4Net {
    pub addr: u32,
    pub prefix: u8,
}

/// The netmask of a prefix length (`Ipv4Network::mask`).
pub open spec fn mask(prefix: u8) -> u32 {
    if prefix == 0 {
        0
    } else if prefix >= 32 {
        0xffff_ffff
    } else {
        (0xffff_ffffu32 << ((32 - prefix) as u32)) as u32
    }
}

impl Ipv4Net {
    pub open spec fn wf(self) -> bool {
        self.prefix <= 32
    }

    /// Lowest address of the block (`Ipv4Network::network`).
    pub open spec fn network(self) -> u32 {
        self.addr & mask(self.prefix)
    }

    /// Highest address of the block (`Ipv4Network::broadcast`).
    pub open spec fn broadcast(self) -> u32 {
        self.addr | !mask(self.prefix)
    }

    /// `Ipv4Network::contains`.
    pub open spec fn contains(self, ip: u32) -> bool {
        (ip & mask(self.prefix)) == (self.addr & mask(self.prefix))
    }

    /// Two blocks denote the same network: same network address and prefix.
    pub open spec fn same_network(self, other: Ipv4Net) -> bool {
        self.network() == other.network() && self.prefix == other.prefix
    }

    /// The address ranges of two blocks intersect.
    pub open spec fn overlaps(self, other: Ipv4Net) -> bool {
        self.network() <= other.broadcast() && other.network() <= self.broadcast()
    }

    pub fn mask_bits(&self) -> (m: u32)
        ensures
            m == mask(self.prefix),
    {
        if self.prefix == 0 {
            0
        } else if self.prefix >= 32 {
            0xffff_ffff
        } else {
            0xffff_ffffu32 << ((32 - self.prefix) as u32)
        }
    }

    pub fn network_address(&self) -> (a: u32)
        ensures
            a == self.network(),
    {
        self.addr & self.mask_bits()
    }

    pub fn broadcast_address(&self) -> (a: u32)
        ensures
            a == self.broadcast(),
    {
        self.addr | !self.mask_bits()
    }

    pub fn contains_address(&self, ip: u32) -> (b: bool)
        ensures
            b == self.contains(ip),
    {
        let m = self.mask_bits();
        (ip & m) == (self.addr & m)
    }

    pub fn is_same_network(&self, other: &Ipv4Net) -> (b: bool)
        ensures
            b == self.same_network(*other),
    {
        self.network_address() == other.network_address() && self.prefix == other.prefix
    }

    /// `a_start <= b_end && b_start <= a_end` over the two blocks.
    pub fn overlaps_with(&self, other: &Ipv4Net) -> (b: bool)
        ensures
            b == self.overlaps(*other),
    {
        self.network_address() <= other.broadcast_address() && other.network_address()
            <= self.broadcast_address()
    }
}

/// An address lies in a block exactly when it lies between the block's
/// network and broadcast addresses.
pub proof fn lemma_contains_iff_in_range(net: Ipv4Net, ip: u32)
    requires
        net.wf(),
    ensures
        net.contains(ip) <==> (net.network() <= ip && ip <= net.broadcast()),
{
    let a = net.addr;
    if net.prefix == 0 {
        assert(mask(0) == 0);
        assert((ip & 0u32) == 0u32 && (a & 0u32) == 0u32 && (a | !0u32) == 0xffff_ffffu32)
            by (bit_vector);
    } else if net.prefix >= 32 {
        assert(mask(net.prefix) == 0xffff_ffffu32);
        assert((ip & 0xffff_ffffu32) == ip && (a & 0xffff_ffffu32) == a && (a | !0xffff_ffffu32)
            == a) by (bit_vector);
    } else {
        let k: u32 = (32 - net.prefix) as u32;
        let m: u32 = 0xffff_ffffu32 << k;
        assert(m == mask(net.prefix));
        assert(((ip & m) == (a & m)) <==> ((a & m) <= ip && ip <= (a | !m))) by (bit_vector)
            requires
                k < 32,
                m == 0xffff_ffffu32 << k,
        ;
    }
}

/// Blocks that do not overlap share no address.
pub proof fn lemma_disjoint_blocks_share_no_address(a: Ipv4Net, b: Ipv4Net, ip: u32)
    requires
        a.wf(),
        b.wf(),
        !a.overlaps(b),
    ensures
        !(a.contains(ip) && b.contains(ip)),
{
    lemma_contains_iff_in_range(a, ip);
    lemma_contains_iff_in_range(b, ip);
}

/// A block holds its own network address.
proof fn lemma_contains_network(a: Ipv4Net)
    requires
        a.wf(),
    ensures
        a.contains(a.network()),
        a.network() <= a.broadcast(),
{
    let m = mask(a.prefix);
    let x = a.addr;
    assert(((x & m) & m) == (x & m)) by (bit_vector);
    lemma_contains_iff_in_range(a, a.network());
}

/// Two blocks overlap exactly when some address lies in both.
pub proof fn lemma_overlaps_iff_shared_address(a: Ipv4Net, b: Ipv4Net)
    requires
        a.wf(),
        b.wf(),
    ensures
        a.overlaps(b) <==> exists|ip: u32| #[trigger] a.contains(ip) && b.contains(ip),
{
    if a.overlaps(b) {
        lemma_contains_network(a);
        lemma_contains_network(b);
        let w = if a.network() >= b.network() {
            a.network()
        } else {
            b.network()
        };
        lemma_contains_iff_in_range(a, w);
        lemma_contains_iff_in_range(b, w);
        assert(a.contains(w) && b.contains(w));
    } else {
        assert forall|ip: u32| !(#[trigger] a.contains(ip) && b.contains(ip)) by {
            lemma_disjoint_blocks_share_no_address(a, b, ip);
        }
    }
}

/// Blocks whose ranges only touch (one ends right before the other begins)
/// do not overlap.
pub proof fn lemma_adjacent_blocks_do_not_overlap(a: Ipv4Net, b: Ipv4Net)
    requires
        a.wf(),
        b.wf(),
        a.broadcast() < b.network(),
    ensures
        !a.overlaps(b),
        !b.overlaps(a),
{
}

/// A block's network address never exceeds its broadcast address, so a block
/// overlaps itself and every block denoting the same network.
pub proof fn lemma_same_network_overlaps(a: Ipv4Net, b: Ipv4Net)
    requires
        a.wf(),
        b.wf(),
        a.same_network(b),
    ensures
        a.overlaps(b),
{
    lemma_contains_iff_in_range(a, a.network());
    lemma_contains_iff_in_range(b, b.network());
    let m = mask(a.prefix);
    let x = a.addr;
    let y = b.addr;
    assert(((x & m) & m) == (x & m)) by (bit_vector);
    assert(((y & m) & m) == (y & m)) by (bit_vector);
}

/// Why a text is not an IPv4 CIDR block; each holds the trimmed text.
#[derive(Clone, Debug, PartialEq, Eq)]
pub enum CidrError {
    /// The text is `*`.
    Wildcard(String),
    /// The text has no `/`.
    MissingPrefix(String),
    /// `ipnetwork` refuses the text.
    Invalid(String),
    /// The text is an IPv6 network.
    NotIpv4(String),
}

impl CidrError {
    /// The trimmed text the error is about.
    pub open spec fn text(self) -> Seq<char> {
        match self {
            CidrError::Wildcard(t) => t@,
            CidrError::MissingPrefix(t) => t@,
            CidrError::Invalid(t) => t@,
            CidrError::NotIpv4(t) => t@,
        }
    }
}

/// What `validate_cidr` decides for a text.
pub enum CidrVerdict {
    Wildcard,
    MissingPrefix,
    Invalid,
    NotIpv4,
    Accepted(Ipv4Net),
}

/// The verdict on a rule's CIDR text: it is trimmed; `*` and texts without
/// `/` are refused before `ipnetwork` reads the rest.
pub open spec fn cidr_verdict(text: Seq<char>) -> CidrVerdict {
    let t = trim(text);
    if t == seq!['*'] {
        CidrVerdict::Wildcard
    } else if !t.contains('/') {
        CidrVerdict::MissingPrefix
    } else {
        match ip_network_parse(t) {
            NetworkParse::V4 { addr, prefix } => CidrVerdict::Accepted(Ipv4Net { addr, prefix }),
            NetworkParse::V6 => CidrVerdict::NotIpv4,
            NetworkParse::Invalid => CidrVerdict::Invalid,
        }
    }
}

/// The result matches the verdict on `text`.
pub open spec fn cidr_result_matches(r: Result<Ipv4Net, CidrError>, text: Seq<char>) -> bool {
    match cidr_verdict(text) {
        CidrVerdict::Accepted(net) => r == Ok::<Ipv4Net, CidrError>(net),
        CidrVerdict::Wildcard => r matches Err(CidrError::Wildcard(t)) && t@ == trim(text),
        CidrVerdict::MissingPrefix => r matches Err(CidrError::MissingPrefix(t)) && t@ == trim(
            text,
        ),
        CidrVerdict::Invalid => r matches Err(CidrError::Invalid(t)) && t@ == trim(text),
        CidrVerdict::NotIpv4 => r matches Err(CidrError::NotIpv4(t)) && t@ == trim(text),
    }
}

/// Reads an IPv4 CIDR block (`validate_cidr`): trims the text, refuses `*`
/// and texts without `/`, then lets `ipnetwork` parse it and keeps IPv4 only.
pub fn parse_cidr(text: &str) -> (r: Result<Ipv4Net, CidrError>)
    ensures
        cidr_result_matches(r, text@),
        r matches Ok(net) ==> net.wf(),
{
    let t = trimmed(text);
    let chars = to_chars(t.as_str());
    if chars.len() == 1 && chars[0] == '*' {
        assert(t@ =~= seq!['*']);
        return Err(CidrError::Wildcard(t));
    }
    proof {
        if t@ == seq!['*'] {
            assert(chars@.len() == 1 && chars@[0] == '*');
        }
    }
    if !has_char(chars.as_slice(), '/') {
        return Err(CidrError::MissingPrefix(t));
    }
    match parse_ip_network(t.as_str()) {
        NetworkParse::V4 { addr, prefix } => Ok(Ipv4Net { addr, prefix }),
        NetworkParse::V6 => Err(CidrError::NotIpv4(t)),
        NetworkParse::Invalid => Err(CidrError::Invalid(t)),
    }
}

} // verus!
