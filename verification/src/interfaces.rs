//! Local network interfaces as plain values, and the lookup tables built
//! from them: by MAC, by NIC name (any of its names, case-insensitively) and
//! by default gateway.

use vstd::prelude::*;
use crate::config::{compile_error_matches, compiled_as, rule_compiles, CompiledRule, Config, ConfigError};
use crate::ipv4::{address_is_loopback, address_is_unspecified, ipv4_parse, is_loopback, is_unspecified, parse_ipv4};
use crate::routes::{first_default_gateway, gateway_from_forward_table, SystemRouteRow};
use crate::tables::{GatewayTable, MacEntry, NameTable};
use crate::text::{lower, lower_string, push_decimal, to_chars, upper, upper_string};

verus! {

/// One local network interface.
#[derive(Clone, Debug)]
pub struct NetworkInterface {
    /// Internal adapter name.
    pub name: String,
    /// Hardware or driver description.
    pub display_name: String,
    /// Interface alias such as `Ethernet` or `Wi-Fi`.
    pub friendly_name: Option<String>,
    pub default_gateway: Option<u32>,
    pub if_index: u32,
    pub mac_address: String,
    pub ipv4_address: Option<String>,
    pub status: String,
}

/// `a.eq_ignore_ascii_case(b)`.
pub open spec fn same_ignoring_case(a: Seq<char>, b: Seq<char>) -> bool {
    lower(a) == lower(b)
}

/// The interface answers to `nic` by its internal name, its description or
/// its alias, ignoring ASCII case.
pub open spec fn alias_matches(i: NetworkInterface, nic: Seq<char>) -> bool {
    same_ignoring_case(i.name@, nic) || same_ignoring_case(i.display_name@, nic) || (
    i.friendly_name matches Some(f) && same_ignoring_case(f@, nic))
}

fn eq_ignore_case(a: &str, b: &str) -> (r: bool)
    ensures
        r == same_ignoring_case(a@, b@),
{
    let la = lower_string(a);
    let lb = lower_string(b);
    la == lb
}

impl NetworkInterface {
    /// Whether a rule's NIC value names this interface.
    pub fn matches_alias(&self, nic: &str) -> (b: bool)
        ensures
            b == alias_matches(*self, nic@),
    {
        if eq_ignore_case(self.name.as_str(), nic) || eq_ignore_case(
            self.display_name.as_str(),
            nic,
        ) {
            return true;
        }
        match &self.friendly_name {
            Some(f) => eq_ignore_case(f.as_str(), nic),
            None => false,
        }
    }
}

/// Whether `nic` names the interface (`nic_name_matches`).
pub fn nic_name_matches(nic: &NetworkInterface, nic_name: &str) -> (b: bool)
    ensures
        b == alias_matches(*nic, nic_name@),
{
    nic.matches_alias(nic_name)
}

/// The first interface that `nic` names.
pub open spec fn first_alias(ifs: Seq<NetworkInterface>, nic: Seq<char>) -> Option<NetworkInterface>
    decreases ifs.len(),
{
    if ifs.len() == 0 {
        None
    } else if alias_matches(ifs[0], nic) {
        Some(ifs[0])
    } else {
        first_alias(ifs.drop_first(), nic)
    }
}

/// The first interface that `nic` names.
pub fn find_interface<'a>(interfaces: &'a [NetworkInterface], nic: &str) -> (r: Option<
    &'a NetworkInterface,
>)
    ensures
        match first_alias(interfaces@, nic@) {
            Some(n) => r matches Some(x) && *x == n,
            None => r is None,
        },
{
    let mut i: usize = 0;
    assert(interfaces@.subrange(0, interfaces@.len() as int) =~= interfaces@);
    while i < interfaces.len()
        invariant
            i <= interfaces@.len(),
            first_alias(interfaces@, nic@) == first_alias(
                interfaces@.subrange(i as int, interfaces@.len() as int),
                nic@,
            ),
        decreases interfaces@.len() - i,
    {
        proof {
            assert(interfaces@.subrange(i as int, interfaces@.len() as int).drop_first()
                =~= interfaces@.subrange(i + 1, interfaces@.len() as int));
        }
        if interfaces[i].matches_alias(nic) {
            return Some(&interfaces[i]);
        }
        i = i + 1;
    }
    None
}

/// The label of an adapter type: Ethernet, WiFi, Other, or `Type(n)`.
pub open spec fn if_type_text(if_type: u32) -> Seq<char> {
    if if_type == 6 {
        "Ethernet"@
    } else if if_type == 71 {
        "WiFi"@
    } else if if_type == 1 {
        "Other"@
    } else {
        "Type("@ + crate::text::dec(if_type as nat) + ")"@
    }
}

pub fn if_type_label(if_type: u32) -> (s: String)
    ensures
        s@ == if_type_text(if_type),
{
    if if_type == 6 {
        String::from_str("Ethernet")
    } else if if_type == 71 {
        String::from_str("WiFi")
    } else if if_type == 1 {
        String::from_str("Other")
    } else {
        let mut s = String::from_str("Type(");
        push_decimal(&mut s, if_type as usize);
        s.append(")");
        s
    }
}

/// The gateway of an interface: its own default gateway, else the first
/// default route of its index in the forwarding table.
pub open spec fn nic_gateway(i: NetworkInterface, table: Seq<SystemRouteRow>) -> Option<u32> {
    match i.default_gateway {
        Some(g) => Some(g),
        None => first_default_gateway(table, i.if_index),
    }
}

/// The interface's IPv4 address, when it parses and is neither unspecified
/// nor loopback.
pub open spec fn egress_of(i: NetworkInterface) -> Option<u32> {
    match i.ipv4_address {
        Some(s) => match ipv4_parse(s@) {
            Some(a) => if !is_unspecified(a) && !is_loopback(a) {
                Some(a)
            } else {
                None
            },
            None => None,
        },
        None => None,
    }
}

/// The lookup tables after the first `k` interfaces: each interface with a
/// gateway adds its entry under its upper-cased MAC, under each of its
/// lower-cased names, and under its gateway; a later interface overwrites
/// an earlier one's key.
pub open spec fn maps_after(ifs: Seq<NetworkInterface>, table: Seq<SystemRouteRow>, k: int) -> (
    Map<Seq<char>, MacEntry>,
    Map<Seq<char>, MacEntry>,
    Map<u32, MacEntry>,
)
    decreases k,
{
    if k <= 0 {
        (Map::empty(), Map::empty(), Map::empty())
    } else {
        let (m, n, g) = maps_after(ifs, table, k - 1);
        let i = ifs[k - 1];
        match nic_gateway(i, table) {
            None => (m, n, g),
            Some(gw) => {
                let e = MacEntry { if_index: i.if_index, gateway: gw, egress_ipv4: egress_of(i) };
                let n1 = n.insert(lower(i.name@), e).insert(lower(i.display_name@), e);
                let n2 = match i.friendly_name {
                    Some(f) => n1.insert(lower(f@), e),
                    None => n1,
                };
                (m.insert(upper(i.mac_address@), e), n2, g.insert(gw, e))
            },
        }
    }
}

fn egress_ipv4(i: &NetworkInterface) -> (r: Option<u32>)
    ensures
        r == egress_of(*i),
{
    match &i.ipv4_address {
        Some(s) => match parse_ipv4(s.as_str()) {
            Some(a) => if !address_is_unspecified(a) && !address_is_loopback(a) {
                Some(a)
            } else {
                None
            },
            None => None,
        },
        None => None,
    }
}

/// Builds the MAC, NIC-name and gateway tables from the interfaces; an
/// interface without a gateway of its own takes the first default route of
/// its index in the forwarding table, and one with neither is left out.
pub fn build_adapter_maps(interfaces: &[NetworkInterface], table: &[SystemRouteRow]) -> (r: (
    NameTable,
    NameTable,
    GatewayTable,
))
    ensures
        r.0.wf() && r.1.wf(),
        (r.0@, r.1@, r.2@) == maps_after(interfaces@, table@, interfaces@.len() as int),
{
    let mut mac_map = NameTable::new();
    let mut nic_map = NameTable::new();
    let mut gw_map = GatewayTable::new();
    let mut k: usize = 0;
    while k < interfaces.len()
        invariant
            k <= interfaces@.len(),
            mac_map.wf(),
            nic_map.wf(),
            (mac_map@, nic_map@, gw_map@) == maps_after(interfaces@, table@, k as int),
        decreases interfaces@.len() - k,
    {
        let nic = &interfaces[k];
        let gateway = match nic.default_gateway {
            Some(g) => Some(g),
            None => match gateway_from_forward_table(table, nic.if_index) {
                Ok(g) => Some(g),
                Err(_) => None,
            },
        };
        match gateway {
            None => {},
            Some(gw) => {
                let entry = MacEntry {
                    if_index: nic.if_index,
                    gateway: gw,
                    egress_ipv4: egress_ipv4(nic),
                };
                let mac = upper_string(nic.mac_address.as_str());
                mac_map.insert(mac.as_str(), entry);
                let n = lower_string(nic.name.as_str());
                nic_map.insert(n.as_str(), entry);
                let d = lower_string(nic.display_name.as_str());
                nic_map.insert(d.as_str(), entry);
                match &nic.friendly_name {
                    Some(f) => {
                        let l = lower_string(f.as_str());
                        nic_map.insert(l.as_str(), entry);
                    },
                    None => {},
                }
                gw_map.insert(gw, entry);
            },
        }
        k = k + 1;
    }
    (mac_map, nic_map, gw_map)
}

/// Compiles the routing rules against the host's interfaces
/// (`build_compiled_rules` once the interfaces and the forwarding table are
/// read).
pub fn build_compiled_rules(
    config: &Config,
    interfaces: &[NetworkInterface],
    table: &[SystemRouteRow],
) -> (r: Result<Vec<CompiledRule>, ConfigError>)
    ensures
        ({
            let (macs, nics, gws) = maps_after(interfaces@, table@, interfaces@.len() as int);
            &&& r is Ok <==> forall|i: int|
                0 <= i < config.rules@.len() ==> rule_compiles(
                    #[trigger] config.rules@[i],
                    macs,
                    nics,
                    gws,
                )
            &&& r matches Ok(c) ==> c@.len() == config.rules@.len() && forall|i: int|
                0 <= i < c@.len() ==> compiled_as(#[trigger] c@[i], config.rules@[i], macs, nics, gws)
            &&& r matches Err(e) ==> exists|i: int|
                0 <= i < config.rules@.len() && !rule_compiles(
                    #[trigger] config.rules@[i],
                    macs,
                    nics,
                    gws,
                ) && (forall|k: int|
                    0 <= k < i ==> rule_compiles(#[trigger] config.rules@[k], macs, nics, gws))
                    && compile_error_matches(e, config.rules@[i], macs, nics)
        }),
{
    let (mac_map, nic_map, gw_map) = build_adapter_maps(interfaces, table);
    config.compile_rules(&mac_map, &nic_map, &gw_map)
}

/// Where the host routes a destination, with the names of the interface.
#[derive(Clone, Debug)]
pub struct EgressPrediction {
    pub dest: u32,
    pub if_index: u32,
    pub next_hop: u32,
    pub nic_name: Option<String>,
    pub nic_display: Option<String>,
    pub nic_friendly: Option<String>,
}

/// The first interface with index `if_index`.
pub open spec fn nic_with_index(ifs: Seq<NetworkInterface>, if_index: u32) -> Option<NetworkInterface>
    decreases ifs.len(),
{
    if ifs.len() == 0 {
        None
    } else if ifs[0].if_index == if_index {
        Some(ifs[0])
    } else {
        nic_with_index(ifs.drop_first(), if_index)
    }
}

fn copy_string(o: &Option<String>) -> (r: Option<String>)
    ensures
        r == *o,
{
    match o {
        Some(s) => Some(s.clone()),
        None => None,
    }
}

/// The prediction for a route the host chose (`predict_ipv4_egress` once
/// the best route is known): the interface names come from the first
/// interface with the route's index.
pub fn predict_ipv4_egress(dest: u32, if_index: u32, next_hop: u32, interfaces: &[NetworkInterface]) -> (p:
    EgressPrediction)
    ensures
        p.dest == dest && p.if_index == if_index && p.next_hop == next_hop,
        match nic_with_index(interfaces@, if_index) {
            Some(n) => p.nic_name == Some(n.name) && p.nic_display == Some(n.display_name)
                && p.nic_friendly == n.friendly_name,
            None => p.nic_name is None && p.nic_display is None && p.nic_friendly is None,
        },
{
    let mut i: usize = 0;
    assert(interfaces@.subrange(0, interfaces@.len() as int) =~= interfaces@);
    while i < interfaces.len()
        invariant
            i <= interfaces@.len(),
            nic_with_index(interfaces@, if_index) == nic_with_index(
                interfaces@.subrange(i as int, interfaces@.len() as int),
                if_index,
            ),
        decreases interfaces@.len() - i,
    {
        proof {
            assert(interfaces@.subrange(i as int, interfaces@.len() as int).drop_first()
                =~= interfaces@.subrange(i + 1, interfaces@.len() as int));
        }
        let n = &interfaces[i];
        if n.if_index == if_index {
            return EgressPrediction {
                dest,
                if_index,
                next_hop,
                nic_name: Some(n.name.clone()),
                nic_display: Some(n.display_name.clone()),
                nic_friendly: copy_string(&n.friendly_name),
            };
        }
        i = i + 1;
    }
    EgressPrediction {
        dest,
        if_index,
        next_hop,
        nic_name: None,
        nic_display: None,
        nic_friendly: None,
    }
}

} // verus!
