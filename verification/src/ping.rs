//! Pinging a host through a chosen NIC: how the target and the count are
//! read, which source address, gateway and label the NIC gives, and how ICMP
//! statuses read.

use vstd::prelude::*;
use crate::cidr::{ip_network_parse, parse_ip_network, NetworkParse};
use crate::interfaces::{find_interface, first_alias, nic_gateway, NetworkInterface};
use crate::ipv4::{
    address_is_loopback, address_is_multicast, address_is_unspecified, ipv4_parse, ipv4_text,
    ipv4_to_string, is_loopback, is_multicast, is_unspecified, parse_ipv4,
};
use crate::routes::{gateway_from_forward_table, SystemRouteRow};
use crate::text::{dec_u32, has_char, push_u32_decimal, to_chars, trim, trimmed};

verus! {

/// Echo requests sent when no count is given.
pub const DEFAULT_COUNT: u32 = 4;

/// Most echo requests one ping sends.
pub const MAX_COUNT: u32 = 10;

/// The answer to one echo request.
#[derive(Clone, Debug)]
pub struct PingReply {
    pub seq: u32,
    pub success: bool,
    pub rtt_ms: Option<u32>,
    pub error: Option<String>,
}

/// The number of echo requests: the count given (4 when none), between 1
/// and 10.
pub fn clamp_count(count: Option<u32>) -> (n: u32)
    ensures
        n == (match count {
            Some(c) => if c < 1 {
                1
            } else if c > 10 {
                10
            } else {
                c
            },
            None => 4,
        }),
{
    let c = match count {
        Some(c) => c,
        None => DEFAULT_COUNT,
    };
    if c < 1 {
        1
    } else if c > MAX_COUNT {
        MAX_COUNT
    } else {
        c
    }
}

/// How an ICMP status reads.
pub open spec fn icmp_status_text(status: u32) -> Seq<char> {
    if status == 0 {
        "ok"@
    } else if status == 11002 {
        "ICMP destination network unreachable"@
    } else if status == 11003 {
        "ICMP destination host unreachable"@
    } else if status == 11010 {
        "ICMP request timed out"@
    } else if status == 11013 {
        "ICMP TTL expired in transit"@
    } else {
        "ICMP status "@ + dec_u32(status)
    }
}

pub fn icmp_status_message(status: u32) -> (s: String)
    ensures
        s@ == icmp_status_text(status),
{
    if status == 0 {
        String::from_str("ok")
    } else if status == 11002 {
        String::from_str("ICMP destination network unreachable")
    } else if status == 11003 {
        String::from_str("ICMP destination host unreachable")
    } else if status == 11010 {
        String::from_str("ICMP request timed out")
    } else if status == 11013 {
        String::from_str("ICMP TTL expired in transit")
    } else {
        let mut s = String::from_str("ICMP status ");
        push_u32_decimal(&mut s, status);
        s
    }
}

/// Why a ping cannot start.
#[derive(Clone, Debug, PartialEq, Eq)]
pub enum PingError {
    EmptyHost,
    /// The host is an IPv4 address that is unspecified or multicast.
    NotUnicastTarget(u32),
    Ipv6NotSupported,
    /// The host name (trimmed) resolved to no usable IPv4 address.
    Unresolved(String),
    /// No NIC answers to the name (as given).
    NicNotFound(String),
    NoIpv4(String),
    InvalidIpv4(String),
    /// The NIC's address cannot be a ping source.
    BadSource { nic: String, ip: u32 },
}

impl PingError {
    /// The message a user sees for the error.
    pub open spec fn message(self) -> Seq<char> {
        match self {
            PingError::EmptyHost => "host must not be empty"@,
            PingError::NotUnicastTarget(ip) => "host address "@ + ipv4_text(ip)
                + " is not a unicast IPv4 target"@,
            PingError::Ipv6NotSupported => "IPv6 hosts are not supported; use an IPv4 address or name"@,
            PingError::Unresolved(h) => "host '"@ + h@ + "' did not resolve to an IPv4 address"@,
            PingError::NicNotFound(n) => "NIC '"@ + n@ + "' not found"@,
            PingError::NoIpv4(n) => "NIC '"@ + n@ + "' has no IPv4 address"@,
            PingError::InvalidIpv4(n) => "NIC '"@ + n@
                + "' has invalid IPv4 address: invalid IPv4 address syntax"@,
            PingError::BadSource { nic, ip } => "NIC '"@ + nic@ + "' IPv4 "@ + ipv4_text(ip)
                + " cannot be used as ping source"@,
        }
    }

    /// The message a user sees for the error.
    pub fn to_string(&self) -> (s: String)
        ensures
            s@ == self.message(),
    {
        match self {
            PingError::EmptyHost => String::from_str("host must not be empty"),
            PingError::NotUnicastTarget(ip) => {
                let mut s = String::from_str("host address ");
                let a = ipv4_to_string(*ip);
                s.append(a.as_str());
                s.append(" is not a unicast IPv4 target");
                s
            },
            PingError::Ipv6NotSupported => String::from_str(
                "IPv6 hosts are not supported; use an IPv4 address or name",
            ),
            PingError::Unresolved(h) => {
                let mut s = String::from_str("host '");
                s.append(h.as_str());
                s.append("' did not resolve to an IPv4 address");
                s
            },
            PingError::NicNotFound(n) => {
                let mut s = String::from_str("NIC '");
                s.append(n.as_str());
                s.append("' not found");
                s
            },
            PingError::NoIpv4(n) => {
                let mut s = String::from_str("NIC '");
                s.append(n.as_str());
                s.append("' has no IPv4 address");
                s
            },
            PingError::InvalidIpv4(n) => {
                let mut s = String::from_str("NIC '");
                s.append(n.as_str());
                s.append("' has invalid IPv4 address: invalid IPv4 address syntax");
                s
            },
            PingError::BadSource { nic, ip } => {
                let mut s = String::from_str("NIC '");
                s.append(nic.as_str());
                s.append("' IPv4 ");
                let a = ipv4_to_string(*ip);
                s.append(a.as_str());
                s.append(" cannot be used as ping source");
                s
            },
        }
    }
}

/// What a ping host is before any name lookup.
#[derive(Clone, Debug, PartialEq, Eq)]
pub enum PingHost {
    /// A unicast IPv4 address.
    Address(u32),
    /// A name to look up (trimmed).
    Name(String),
}

/// The host is an IPv6 address: no `/`, and `ipnetwork` reads an IPv6
/// network.
pub open spec fn ipv6_literal(t: Seq<char>) -> bool {
    !t.contains('/') && ip_network_parse(t) is V6
}

/// Reads the ping target: blank is refused; an IPv4 address must be
/// unicast; an IPv6 address is refused; anything else is a name to look up.
pub fn classify_ping_host(host: &str) -> (r: Result<PingHost, PingError>)
    ensures
        ({
            let t = trim(host@);
            if t.len() == 0 {
                r == Err::<PingHost, PingError>(PingError::EmptyHost)
            } else if ipv4_parse(t) is Some {
                let a = ipv4_parse(t)->0;
                if is_unspecified(a) || is_multicast(a) {
                    r == Err::<PingHost, PingError>(PingError::NotUnicastTarget(a))
                } else {
                    r == Ok::<PingHost, PingError>(PingHost::Address(a))
                }
            } else if ipv6_literal(t) {
                r == Err::<PingHost, PingError>(PingError::Ipv6NotSupported)
            } else {
                r matches Ok(PingHost::Name(n)) && n@ == t
            }
        }),
{
    let t = trimmed(host);
    if t.as_str().unicode_len() == 0 {
        return Err(PingError::EmptyHost);
    }
    if let Some(a) = parse_ipv4(t.as_str()) {
        if address_is_unspecified(a) || address_is_multicast(a) {
            return Err(PingError::NotUnicastTarget(a));
        }
        return Ok(PingHost::Address(a));
    }
    let chars = to_chars(t.as_str());
    if !has_char(chars.as_slice(), '/') {
        if let NetworkParse::V6 = parse_ip_network(t.as_str()) {
            return Err(PingError::Ipv6NotSupported);
        }
    }
    Ok(PingHost::Name(t))
}

/// The first resolved address that is neither unspecified nor multicast.
pub fn first_unicast(addrs: &[u32]) -> (r: Option<u32>)
    ensures
        r is None <==> forall|i: int|
            0 <= i < addrs@.len() ==> (is_unspecified(#[trigger] addrs@[i]) || is_multicast(
                addrs@[i],
            )),
        r matches Some(a) ==> exists|i: int|
            0 <= i < addrs@.len() && #[trigger] addrs@[i] == a && !is_unspecified(a)
                && !is_multicast(a) && forall|k: int|
                0 <= k < i ==> (is_unspecified(#[trigger] addrs@[k]) || is_multicast(addrs@[k])),
{
    let mut i: usize = 0;
    while i < addrs.len()
        invariant
            i <= addrs@.len(),
            forall|k: int|
                0 <= k < i ==> (is_unspecified(#[trigger] addrs@[k]) || is_multicast(addrs@[k])),
        decreases addrs@.len() - i,
    {
        let a = addrs[i];
        if !address_is_unspecified(a) && !address_is_multicast(a) {
            return Some(a);
        }
        i = i + 1;
    }
    None
}

/// What a ping through a NIC uses.
#[derive(Clone, Debug)]
pub struct PingSetup {
    pub count: u32,
    pub if_index: u32,
    pub source_ip: u32,
    /// Gateway of the temporary host route.
    pub gateway: u32,
    /// How the NIC is named in the result.
    pub nic_label: String,
}

/// How a NIC is named in a ping result: its alias, else its description,
/// else its internal name (the first non-empty).
pub open spec fn nic_label_of(i: NetworkInterface) -> Seq<char> {
    if i.friendly_name matches Some(f) && f@.len() > 0 {
        i.friendly_name->0@
    } else if i.display_name@.len() > 0 {
        i.display_name@
    } else {
        i.name@
    }
}

fn nic_label(i: &NetworkInterface) -> (s: String)
    ensures
        s@ == nic_label_of(*i),
{
    if let Some(f) = &i.friendly_name {
        if f.as_str().unicode_len() > 0 {
            return f.clone();
        }
    }
    if i.display_name.as_str().unicode_len() > 0 {
        i.display_name.clone()
    } else {
        i.name.clone()
    }
}

/// Chooses how to ping `dest` through the NIC named `nic`: the first NIC
/// that answers to the trimmed name, its IPv4 address as the source (which
/// must parse and be neither unspecified nor loopback), its gateway (else
/// `dest`) for the temporary host route.
pub fn ping_setup(
    dest: u32,
    nic: &str,
    count: Option<u32>,
    interfaces: &[NetworkInterface],
    table: &[SystemRouteRow],
) -> (r: Result<PingSetup, PingError>)
    ensures
        match first_alias(interfaces@, trim(nic@)) {
            None => r matches Err(PingError::NicNotFound(n)) && n@ == nic@,
            Some(i) => match i.ipv4_address {
                None => r matches Err(PingError::NoIpv4(n)) && n@ == nic@,
                Some(s) => match ipv4_parse(s@) {
                    None => r matches Err(PingError::InvalidIpv4(n)) && n@ == nic@,
                    Some(a) => if is_unspecified(a) || is_loopback(a) {
                        r matches Err(PingError::BadSource { nic: n, ip }) && n@ == nic@ && ip == a
                    } else {
                        r matches Ok(p) && p.if_index == i.if_index && p.source_ip == a
                            && p.gateway == (match nic_gateway(i, table@) {
                            Some(g) => g,
                            None => dest,
                        }) && p.nic_label@ == nic_label_of(i) && p.count == (match count {
                            Some(c) => if c < 1 {
                                1
                            } else if c > 10 {
                                10
                            } else {
                                c
                            },
                            None => 4,
                        })
                    },
                },
            },
        },
{
    let count = clamp_count(count);
    let name = trimmed(nic);
    let iface = match find_interface(interfaces, name.as_str()) {
        Some(i) => i,
        None => {
            return Err(PingError::NicNotFound(String::from_str(nic)));
        },
    };
    let source_ip = match &iface.ipv4_address {
        None => {
            return Err(PingError::NoIpv4(String::from_str(nic)));
        },
        Some(s) => match parse_ipv4(s.as_str()) {
            Some(a) => a,
            None => {
                return Err(PingError::InvalidIpv4(String::from_str(nic)));
            },
        },
    };
    if address_is_unspecified(source_ip) || address_is_loopback(source_ip) {
        return Err(PingError::BadSource { nic: String::from_str(nic), ip: source_ip });
    }
    let gateway = match iface.default_gateway {
        Some(g) => g,
        None => match gateway_from_forward_table(table, iface.if_index) {
            Ok(g) => g,
            Err(_) => dest,
        },
    };
    Ok(
        PingSetup {
            count,
            if_index: iface.if_index,
            source_ip,
            gateway,
            nic_label: nic_label(iface),
        },
    )
}

/// How many replies succeeded.
pub fn received_count(replies: &[PingReply]) -> (n: u32)
    requires
        replies@.len() <= u32::MAX,
    ensures
        n == replies@.filter(|r: PingReply| r.success).len(),
{
    let ghost pred = |r: PingReply| r.success;
    let mut n: u32 = 0;
    let mut i: usize = 0;
    assert(replies@.subrange(0, 0).filter(pred) =~= Seq::<PingReply>::empty()) by {
        reveal(Seq::filter);
    }
    while i < replies.len()
        invariant
            i <= replies@.len(),
            replies@.len() <= u32::MAX,
            forall|r: PingReply| #[trigger] pred(r) == r.success,
            n == replies@.subrange(0, i as int).filter(pred).len(),
            n <= i,
        decreases replies@.len() - i,
    {
        proof {
            assert(replies@.subrange(0, i + 1) =~= replies@.subrange(0, i as int).push(replies@[i as int]));
            crate::text::lemma_filter_push(replies@.subrange(0, i as int), replies@[i as int], pred);
        }
        if replies[i].success {
            n = n + 1;
        }
        i = i + 1;
    }
    assert(replies@.subrange(0, replies@.len() as int) =~= replies@);
    n
}

} // verus!
