//! Reading a hostname for IPv4 resolution: literal addresses are taken as
//! they are, names are looked up elsewhere, and the answers are filtered to
//! distinct unicast IPv4 addresses.

use vstd::prelude::*;
use crate::cidr::{parse_ip_network, NetworkParse};
use crate::ipv4::{
    address_is_multicast, address_is_unspecified, ipv4_parse, ipv4_text, ipv4_to_string,
    is_multicast, is_unspecified, parse_ipv4,
};
use crate::ping::ipv6_literal;
use crate::text::{has_char, to_chars, trim, trimmed};

verus! {

/// Why a hostname gives no IPv4 address.
#[derive(Clone, Debug, PartialEq, Eq)]
pub enum ResolveError {
    EmptyHostname,
    /// A literal address that is unspecified or multicast.
    NotUnicast(u32),
    Ipv6NotSupported,
    /// The name (trimmed) resolved to no usable IPv4 address.
    NoIpv4(String),
}

impl ResolveError {
    /// The message a user sees for the error.
    pub open spec fn message(self) -> Seq<char> {
        match self {
            ResolveError::EmptyHostname => "hostname must not be empty"@,
            ResolveError::NotUnicast(a) => "address "@ + ipv4_text(a)
                + " is not a unicast IPv4 target"@,
            ResolveError::Ipv6NotSupported => "IPv6 hosts are not supported; use an IPv4 hostname"@,
            ResolveError::NoIpv4(h) => "host '"@ + h@ + "' did not resolve to an IPv4 address"@,
        }
    }

    /// The message a user sees for the error.
    pub fn to_string(&self) -> (s: String)
        ensures
            s@ == self.message(),
    {
        match self {
            ResolveError::EmptyHostname => String::from_str("hostname must not be empty"),
            ResolveError::NotUnicast(a) => {
                let mut s = String::from_str("address ");
                let t = ipv4_to_string(*a);
                s.append(t.as_str());
                s.append(" is not a unicast IPv4 target");
                s
            },
            ResolveError::Ipv6NotSupported => String::from_str(
                "IPv6 hosts are not supported; use an IPv4 hostname",
            ),
            ResolveError::NoIpv4(h) => {
                let mut s = String::from_str("host '");
                s.append(h.as_str());
                s.append("' did not resolve to an IPv4 address");
                s
            },
        }
    }
}

/// What a hostname is before any lookup.
#[derive(Clone, Debug, PartialEq, Eq)]
pub enum HostnameQuery {
    /// A unicast IPv4 address: the answer itself.
    Literal(u32),
    /// A name to look up (trimmed).
    Lookup(String),
}

/// Reads a hostname (`resolve_hostname_ipv4s` before its lookup).
pub fn read_hostname(host: &str) -> (r: Result<HostnameQuery, ResolveError>)
    ensures
        ({
            let t = trim(host@);
            if t.len() == 0 {
                r == Err::<HostnameQuery, ResolveError>(ResolveError::EmptyHostname)
            } else if ipv4_parse(t) is Some {
                let a = ipv4_parse(t)->0;
                if is_unspecified(a) || is_multicast(a) {
                    r == Err::<HostnameQuery, ResolveError>(ResolveError::NotUnicast(a))
                } else {
                    r == Ok::<HostnameQuery, ResolveError>(HostnameQuery::Literal(a))
                }
            } else if ipv6_literal(t) {
                r == Err::<HostnameQuery, ResolveError>(ResolveError::Ipv6NotSupported)
            } else {
                r matches Ok(HostnameQuery::Lookup(n)) && n@ == t
            }
        }),
{
    let t = trimmed(host);
    if t.as_str().unicode_len() == 0 {
        return Err(ResolveError::EmptyHostname);
    }
    if let Some(a) = parse_ipv4(t.as_str()) {
        if address_is_unspecified(a) || address_is_multicast(a) {
            return Err(ResolveError::NotUnicast(a));
        }
        return Ok(HostnameQuery::Literal(a));
    }
    let chars = to_chars(t.as_str());
    if !has_char(chars.as_slice(), '/') {
        if let NetworkParse::V6 = parse_ip_network(t.as_str()) {
            return Err(ResolveError::Ipv6NotSupported);
        }
    }
    Ok(HostnameQuery::Lookup(t))
}

/// The unicast addresses of a lookup answer, each once, in answer order.
pub open spec fn unicast_unique(addrs: Seq<u32>) -> Seq<u32>
    decreases addrs.len(),
{
    if addrs.len() == 0 {
        Seq::empty()
    } else {
        let p = unicast_unique(addrs.drop_last());
        let a = addrs.last();
        if !is_unspecified(a) && !is_multicast(a) && !p.contains(a) {
            p.push(a)
        } else {
            p
        }
    }
}

/// The usable addresses of a lookup of `name`; none is an error.
pub fn lookup_answer(name: &str, addrs: &[u32]) -> (r: Result<Vec<u32>, ResolveError>)
    ensures
        unicast_unique(addrs@).len() > 0 ==> (r matches Ok(v) && v@ == unicast_unique(addrs@)),
        unicast_unique(addrs@).len() == 0 ==> (r matches Err(ResolveError::NoIpv4(h)) && h@
            == name@),
{
    let mut out: Vec<u32> = Vec::new();
    let mut i: usize = 0;
    while i < addrs.len()
        invariant
            i <= addrs@.len(),
            out@ == unicast_unique(addrs@.subrange(0, i as int)),
        decreases addrs@.len() - i,
    {
        let a = addrs[i];
        proof {
            assert(addrs@.subrange(0, i + 1).drop_last() =~= addrs@.subrange(0, i as int));
        }
        if !address_is_unspecified(a) && !address_is_multicast(a) {
            let mut seen = false;
            let mut k: usize = 0;
            while k < out.len()
                invariant
                    k <= out@.len(),
                    seen == (exists|j: int| 0 <= j < k && out@[j] == a),
                decreases out@.len() - k,
            {
                if out[k] == a {
                    seen = true;
                }
                k = k + 1;
            }
            if !seen {
                out.push(a);
            }
        }
        i = i + 1;
    }
    assert(addrs@.subrange(0, addrs@.len() as int) =~= addrs@);
    if out.len() == 0 {
        return Err(ResolveError::NoIpv4(String::from_str(name)));
    }
    Ok(out)
}

} // verus!
