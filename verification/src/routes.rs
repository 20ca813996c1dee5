//! Rows of the IPv4 forwarding table and the routes this program installs:
//! which rows count as applied routes, how a row reads as a rule, and which
//! routes a compiled rule set asks for.

use vstd::prelude::*;
use crate::cidr::{mask, Ipv4Net};
use crate::config::{
    destination_kind_name, destination_name, target_kind_name, target_name, CompiledRule,
    DestinationKind, MatchPattern, RoutingRule, TargetKind,
};
use crate::ipv4::{
    address_is_unspecified, ipv4_text, ipv4_to_string, is_loopback, is_unspecified, octet0,
    octet1, octet2, octet3, from_octets,
};
use crate::text::{
    contains_text, dec, has_text, lower, lower_string, push_char, push_decimal, to_chars, trim,
    trimmed,
};

verus! {

/// One IPv4 row of the forwarding table.
#[derive(Clone, Copy, Debug, PartialEq, Eq, Structural)]
pub struct SystemRouteRow {
    pub dest: u32,
    pub prefix_len: u8,
    pub gateway: u32,
    pub if_index: u32,
}

/// A route installed for the lifetime of the running router.
#[derive(Clone, Copy, Debug, PartialEq, Eq, Structural)]
pub struct InstalledRoute {
    pub dest: u32,
    pub prefix_len: u8,
}

/// A route to install: destination block, gateway and interface.
#[derive(Clone, Copy, Debug, PartialEq, Eq, Structural)]
pub struct RouteToInstall {
    pub dest: u32,
    pub prefix_len: u8,
    pub gateway: u32,
    pub if_index: u32,
}

/// A block whose destination is a loopback address, or whose network lies in
/// `127.0.0.0/8`.
pub open spec fn loopback_prefix(dest: u32, prefix_len: u8) -> bool {
    is_loopback(dest) || (prefix_len != 0 && ((dest & mask(prefix_len)) >> 24u32) == 127)
}

pub fn is_loopback_prefix(dest: u32, prefix_len: u8) -> (b: bool)
    ensures
        b == loopback_prefix(dest, prefix_len),
{
    if dest / 0x100_0000 == 127 {
        return true;
    }
    if prefix_len == 0 {
        return false;
    }
    let m: u32 = if prefix_len >= 32 {
        0xffff_ffff
    } else {
        0xffff_ffffu32 << ((32 - prefix_len) as u32)
    };
    (dest & m) >> 24u32 == 127
}

/// A block whose destination is a multicast address, or a short block
/// (prefix at most 4) inside `224.0.0.0/4`.
pub open spec fn multicast_prefix(dest: u32, prefix_len: u8) -> bool {
    (224 <= octet0(dest) && octet0(dest) <= 239) || (prefix_len <= 4 && (dest & 0xf000_0000u32)
        == 0xe000_0000u32)
}

pub fn is_multicast_prefix(dest: u32, prefix_len: u8) -> (b: bool)
    ensures
        b == multicast_prefix(dest, prefix_len),
{
    let o = dest / 0x100_0000;
    if o >= 224 && o <= 239 {
        return true;
    }
    prefix_len <= 4 && (dest & 0xf000_0000u32) == 0xe000_0000u32
}

/// The netmask address handed to `route add`. Below 32 bits it is the mask
/// with its bytes in reverse order, which is what converting the mask to
/// big-endian before building the address gives on a little-endian host.
pub open spec fn route_mask(prefix_len: u8) -> u32 {
    if prefix_len == 0 {
        0
    } else if prefix_len >= 32 {
        0xffff_ffff
    } else {
        let m = mask(prefix_len);
        from_octets(octet3(m), octet2(m), octet1(m), octet0(m))
    }
}

pub fn prefix_mask(prefix_len: u8) -> (m: u32)
    ensures
        m == route_mask(prefix_len),
{
    if prefix_len == 0 {
        return 0;
    }
    if prefix_len >= 32 {
        return 0xffff_ffff;
    }
    let bits: u32 = 0xffff_ffffu32 << ((32 - prefix_len) as u32);
    let (o0, o1, o2, o3) = crate::ipv4::octets(bits);
    crate::ipv4::address_from_octets(o3, o2, o1, o0)
}

/// The rule a forwarding-table row reads as: a `/32` row is an IP target,
/// any other a CIDR target, routed to the row's gateway.
pub open spec fn row_rule_matches(rule: RoutingRule, row: SystemRouteRow) -> bool {
    &&& rule.target == (if row.prefix_len == 32 {
        TargetKind::Ip
    } else {
        TargetKind::Cidr
    })
    &&& rule.target_value@ == (if row.prefix_len == 32 {
        ipv4_text(row.dest)
    } else {
        ipv4_text(row.dest) + seq!['/'] + dec(row.prefix_len as nat)
    })
    &&& rule.destination == DestinationKind::Ip
    &&& rule.destination_value@ == ipv4_text(row.gateway)
}

pub fn system_row_to_rule(row: &SystemRouteRow) -> (rule: RoutingRule)
    ensures
        row_rule_matches(rule, *row),
{
    let gateway = ipv4_to_string(row.gateway);
    if row.prefix_len == 32 {
        RoutingRule {
            target: TargetKind::Ip,
            target_value: ipv4_to_string(row.dest),
            destination: DestinationKind::Ip,
            destination_value: gateway,
        }
    } else {
        let mut s = ipv4_to_string(row.dest);
        push_char(&mut s, '/');
        push_decimal(&mut s, row.prefix_len as usize);
        assert(s@ =~= ipv4_text(row.dest) + seq!['/'] + dec(row.prefix_len as nat));
        RoutingRule {
            target: TargetKind::Cidr,
            target_value: s,
            destination: DestinationKind::Ip,
            destination_value: gateway,
        }
    }
}

/// `target:value|destination:value`, the target value trimmed and
/// lower-cased, the destination value trimmed.
pub open spec fn identity_key_of(rule: RoutingRule) -> Seq<char> {
    target_name(rule.target) + seq![':'] + lower(trim(rule.target_value@)) + seq!['|']
        + destination_name(rule.destination) + seq![':'] + trim(rule.destination_value@)
}

pub fn rule_identity_key(rule: &RoutingRule) -> (k: String)
    ensures
        k@ == identity_key_of(*rule),
{
    let mut s = target_kind_name(rule.target);
    push_char(&mut s, ':');
    let t = trimmed(rule.target_value.as_str());
    let l = lower_string(t.as_str());
    s.append(l.as_str());
    push_char(&mut s, '|');
    let d = destination_kind_name(rule.destination);
    s.append(d.as_str());
    push_char(&mut s, ':');
    let v = trimmed(rule.destination_value.as_str());
    s.append(v.as_str());
    s
}

/// A forwarding-table row that counts as an applied route: not a default
/// route, with a gateway, to a destination that is neither unspecified,
/// loopback nor multicast.
pub open spec fn applied_row(row: SystemRouteRow) -> bool {
    &&& row.prefix_len != 0
    &&& !is_unspecified(row.gateway)
    &&& !is_unspecified(row.dest)
    &&& !loopback_prefix(row.dest, row.prefix_len)
    &&& !multicast_prefix(row.dest, row.prefix_len)
}

pub fn is_applied_row(row: &SystemRouteRow) -> (b: bool)
    ensures
        b == applied_row(*row),
{
    row.prefix_len != 0 && !address_is_unspecified(row.gateway) && !address_is_unspecified(
        row.dest,
    ) && !is_loopback_prefix(row.dest, row.prefix_len) && !is_multicast_prefix(
        row.dest,
        row.prefix_len,
    )
}

/// Whether a `/32` row for `dest` is among the applied routes.
pub fn host_route_exists(applied: &[SystemRouteRow], dest: u32) -> (b: bool)
    ensures
        b == exists|i: int|
            0 <= i < applied@.len() && (#[trigger] applied@[i]).dest == dest && applied@[i].prefix_len
                == 32,
{
    let mut i: usize = 0;
    while i < applied.len()
        invariant
            i <= applied@.len(),
            forall|k: int|
                0 <= k < i ==> !((#[trigger] applied@[k]).dest == dest && applied@[k].prefix_len
                    == 32),
        decreases applied@.len() - i,
    {
        if applied[i].dest == dest && applied[i].prefix_len == 32 {
            return true;
        }
        i = i + 1;
    }
    false
}

/// No default route with a gateway on an interface.
#[derive(Clone, Copy, Debug, PartialEq, Eq, Structural)]
pub struct NoDefaultRoute {
    pub if_index: u32,
}

impl NoDefaultRoute {
    pub open spec fn message(self) -> Seq<char> {
        "no 0.0.0.0/0 route on interface index "@ + dec(self.if_index as nat)
    }

    pub fn to_string(&self) -> (s: String)
        ensures
            s@ == self.message(),
    {
        let mut s = String::from_str("no 0.0.0.0/0 route on interface index ");
        push_decimal(&mut s, self.if_index as usize);
        s
    }
}

/// A default-route row of an interface with a gateway.
pub open spec fn default_route_of(row: SystemRouteRow, if_index: u32) -> bool {
    row.if_index == if_index && row.prefix_len == 0 && !is_unspecified(row.gateway)
}

/// The gateway of the first default route of an interface in a table.
pub open spec fn first_default_gateway(table: Seq<SystemRouteRow>, if_index: u32) -> Option<u32>
    decreases table.len(),
{
    if table.len() == 0 {
        None
    } else if default_route_of(table[0], if_index) {
        Some(table[0].gateway)
    } else {
        first_default_gateway(table.drop_first(), if_index)
    }
}

/// The gateway of the first default route (`0.0.0.0/0`) of an interface in
/// the forwarding table.
pub fn gateway_from_forward_table(table: &[SystemRouteRow], if_index: u32) -> (r: Result<
    u32,
    NoDefaultRoute,
>)
    ensures
        r == (match first_default_gateway(table@, if_index) {
            Some(g) => Ok::<u32, NoDefaultRoute>(g),
            None => Err(NoDefaultRoute { if_index }),
        }),
{
    let mut i: usize = 0;
    assert(table@.subrange(0, table@.len() as int) =~= table@);
    while i < table.len()
        invariant
            i <= table@.len(),
            first_default_gateway(table@, if_index) == first_default_gateway(
                table@.subrange(i as int, table@.len() as int),
                if_index,
            ),
        decreases table@.len() - i,
    {
        let row = table[i];
        proof {
            assert(table@.subrange(i as int, table@.len() as int).drop_first() =~= table@.subrange(
                i + 1,
                table@.len() as int,
            ));
        }
        if row.if_index == if_index && row.prefix_len == 0 && !address_is_unspecified(
            row.gateway,
        ) {
            return Ok(row.gateway);
        }
        i = i + 1;
    }
    Err(NoDefaultRoute { if_index })
}

/// The route a compiled rule asks for: its block (network address and
/// prefix) or its single address as `/32`, through its gateway; interface
/// targets and default blocks ask for none.
pub open spec fn route_for(rule: CompiledRule) -> Option<RouteToInstall> {
    match rule.match_pattern {
        MatchPattern::Network(net) => if net.prefix == 0 {
            None
        } else {
            Some(
                RouteToInstall {
                    dest: net.network(),
                    prefix_len: net.prefix,
                    gateway: rule.gateway,
                    if_index: rule.if_index,
                },
            )
        },
        MatchPattern::Ip(ip) => Some(
            RouteToInstall { dest: ip, prefix_len: 32, gateway: rule.gateway, if_index: rule.if_index },
        ),
        MatchPattern::Interface(_) => None,
    }
}

/// The routes of `rules`, in order.
pub open spec fn routes_for(rules: Seq<CompiledRule>) -> Seq<RouteToInstall>
    decreases rules.len(),
{
    if rules.len() == 0 {
        Seq::empty()
    } else {
        let rest = routes_for(rules.drop_last());
        match route_for(rules.last()) {
            Some(r) => rest.push(r),
            None => rest,
        }
    }
}

/// The routes `install_routes_for_rules` adds, in order.
pub fn route_plan(rules: &[CompiledRule]) -> (plan: Vec<RouteToInstall>)
    ensures
        plan@ == routes_for(rules@),
{
    let mut plan: Vec<RouteToInstall> = Vec::new();
    let mut i: usize = 0;
    while i < rules.len()
        invariant
            i <= rules@.len(),
            plan@ == routes_for(rules@.subrange(0, i as int)),
        decreases rules@.len() - i,
    {
        let rule = &rules[i];
        proof {
            assert(rules@.subrange(0, i + 1).drop_last() =~= rules@.subrange(0, i as int));
        }
        match rule.match_pattern {
            MatchPattern::Network(net) => {
                if net.prefix != 0 {
                    plan.push(
                        RouteToInstall {
                            dest: net.network_address(),
                            prefix_len: net.prefix,
                            gateway: rule.gateway,
                            if_index: rule.if_index,
                        },
                    );
                }
            },
            MatchPattern::Ip(ip) => {
                plan.push(
                    RouteToInstall {
                        dest: ip,
                        prefix_len: 32,
                        gateway: rule.gateway,
                        if_index: rule.if_index,
                    },
                );
            },
            MatchPattern::Interface(_) => {},
        }
        i = i + 1;
    }
    assert(rules@.subrange(0, rules@.len() as int) =~= rules@);
    plan
}

/// Every rule that names a block (of non-zero prefix) or a single address
/// gets a route to that block or address through the rule's own gateway and
/// interface, whatever address the rule's interface holds itself.
pub proof fn lemma_route_plan_uses_rule_gateways(rules: Seq<CompiledRule>)
    ensures
        forall|j: int|
            0 <= j < rules.len() ==> match (#[trigger] rules[j]).match_pattern {
                MatchPattern::Network(net) => net.prefix != 0 ==> routes_for(rules).contains(
                    (RouteToInstall {
                        dest: net.network(),
                        prefix_len: net.prefix,
                        gateway: rules[j].gateway,
                        if_index: rules[j].if_index,
                    }),
                ),
                MatchPattern::Ip(a) => routes_for(rules).contains(
                    (RouteToInstall {
                        dest: a,
                        prefix_len: 32,
                        gateway: rules[j].gateway,
                        if_index: rules[j].if_index,
                    }),
                ),
                MatchPattern::Interface(_) => true,
            },
    decreases rules.len(),
{
    if rules.len() > 0 {
        let init = rules.drop_last();
        let x = rules.last();
        let rest = routes_for(init);
        lemma_route_plan_uses_rule_gateways(init);
        let all = routes_for(rules);
        assert forall|t: RouteToInstall| rest.contains(t) implies all.contains(t) by {
            let k = choose|k: int| 0 <= k < rest.len() && rest[k] == t;
            assert(all[k] == rest[k]);
        }
        assert forall|j: int| 0 <= j < rules.len() implies match (#[trigger] rules[j]).match_pattern {
            MatchPattern::Network(net) => net.prefix != 0 ==> all.contains(
                (RouteToInstall {
                    dest: net.network(),
                    prefix_len: net.prefix,
                    gateway: rules[j].gateway,
                    if_index: rules[j].if_index,
                }),
            ),
            MatchPattern::Ip(a) => all.contains(
                (RouteToInstall {
                    dest: a,
                    prefix_len: 32,
                    gateway: rules[j].gateway,
                    if_index: rules[j].if_index,
                }),
            ),
            MatchPattern::Interface(_) => true,
        } by {
            if j < init.len() {
                assert(rules[j] == init[j]);
            } else {
                assert(rules[j] == x);
                if route_for(x) is Some {
                    assert(all[all.len() - 1] == route_for(x)->0);
                }
            }
        }
    } else {
        assert(routes_for(rules).len() == 0);
    }
}

/// Every planned route goes through the gateway and interface of a rule
/// that asks for one: the returned index names that rule.
pub proof fn lemma_route_source(rules: Seq<CompiledRule>, k: int) -> (j: int)
    requires
        0 <= k < routes_for(rules).len(),
    ensures
        0 <= j < rules.len(),
        !(rules[j].match_pattern is Interface),
        routes_for(rules)[k].gateway == rules[j].gateway,
        routes_for(rules)[k].if_index == rules[j].if_index,
    decreases rules.len(),
{
    let init = rules.drop_last();
    let rest = routes_for(init);
    if k < rest.len() {
        let j = lemma_route_source(init, k);
        assert(routes_for(rules)[k] == rest[k]);
        assert(rules[j] == init[j]);
        j
    } else {
        assert(route_for(rules.last()) is Some);
        assert(routes_for(rules)[k] == route_for(rules.last())->0);
        (rules.len() - 1) as int
    }
}

/// A forwarding-table row is an applied route exactly when it is no
/// default route, has a gateway and a destination, and its destination is
/// neither loopback nor multicast.
pub proof fn lemma_applied_row_meaning(r: SystemRouteRow)
    ensures
        applied_row(r) <==> (r.prefix_len != 0 && r.gateway != 0 && r.dest != 0 && !loopback_prefix(
            r.dest,
            r.prefix_len,
        ) && !multicast_prefix(r.dest, r.prefix_len)),
{
}

/// A host route (`/32`) through a gateway to an address outside `0.0.0.0`,
/// `127.0.0.0/8` and `224.0.0.0/4` is an applied route.
pub proof fn lemma_host_route_applied(r: SystemRouteRow)
    requires
        r.prefix_len == 32,
        r.gateway != 0,
        r.dest != 0,
        r.dest / 0x100_0000 != 127,
        !(224 <= r.dest / 0x100_0000 && r.dest / 0x100_0000 <= 239),
    ensures
        applied_row(r),
{
    let d = r.dest;
    assert(mask(32) == 0xffff_ffffu32);
    assert(((d & 0xffff_ffffu32) >> 24u32) == d / 0x100_0000) by (bit_vector);
    assert(octet0(d) == d / 0x100_0000);
}

/// Whether `route add` succeeded: it exited with success, or it reported
/// that the route already exists.
pub fn route_add_succeeded(exit_ok: bool, stderr: &str, stdout: &str) -> (b: bool)
    ensures
        b == (exit_ok || contains_text(stderr@, "already exists"@) || contains_text(
            stdout@,
            "already exists"@,
        )),
{
    if exit_ok {
        return true;
    }
    let pat = to_chars("already exists");
    let e = to_chars(stderr);
    let o = to_chars(stdout);
    has_text(e.as_slice(), pat.as_slice()) || has_text(o.as_slice(), pat.as_slice())
}


/// Rows ordered by destination, then prefix length, then gateway.
pub open spec fn row_le(a: SystemRouteRow, b: SystemRouteRow) -> bool {
    a.dest < b.dest || (a.dest == b.dest && (a.prefix_len < b.prefix_len || (a.prefix_len
        == b.prefix_len && a.gateway <= b.gateway)))
}

/// The rows are in `row_le` order.
pub open spec fn rows_sorted(s: Seq<SystemRouteRow>) -> bool {
    forall|i: int, j: int| 0 <= i < j < s.len() ==> row_le(#[trigger] s[i], #[trigger] s[j])
}

/// Where a stable insertion puts `x`: before the first row ordered after it.
pub open spec fn insert_pos(s: Seq<SystemRouteRow>, x: SystemRouteRow) -> int
    decreases s.len(),
{
    if s.len() == 0 {
        0
    } else if !row_le(s[0], x) {
        0
    } else {
        1 + insert_pos(s.drop_first(), x)
    }
}

/// The rows of `d` in `row_le` order, rows that tie kept in their order in
/// `d` (a stable sort).
pub open spec fn sort_rows(d: Seq<SystemRouteRow>) -> Seq<SystemRouteRow>
    decreases d.len(),
{
    if d.len() == 0 {
        Seq::empty()
    } else {
        let s = sort_rows(d.drop_last());
        s.insert(insert_pos(s, d.last()), d.last())
    }
}

/// The applied rows of a forwarding table, each kept once, in table order.
pub open spec fn dedup_applied(t: Seq<SystemRouteRow>) -> Seq<SystemRouteRow>
    decreases t.len(),
{
    if t.len() == 0 {
        Seq::empty()
    } else {
        let p = dedup_applied(t.drop_last());
        if applied_row(t.last()) && !p.contains(t.last()) {
            p.push(t.last())
        } else {
            p
        }
    }
}

/// The applied routes of a forwarding table (`read_applied_ipv4_routes`
/// once the table is read).
pub open spec fn applied_routes(t: Seq<SystemRouteRow>) -> Seq<SystemRouteRow> {
    sort_rows(dedup_applied(t))
}

proof fn lemma_insert_pos_bounds(s: Seq<SystemRouteRow>, x: SystemRouteRow)
    ensures
        0 <= insert_pos(s, x) <= s.len(),
        forall|i: int| 0 <= i < insert_pos(s, x) ==> row_le(#[trigger] s[i], x),
        insert_pos(s, x) < s.len() ==> !row_le(s[insert_pos(s, x)], x),
    decreases s.len(),
{
    if s.len() > 0 && row_le(s[0], x) {
        lemma_insert_pos_bounds(s.drop_first(), x);
        assert forall|i: int| 0 <= i < insert_pos(s, x) implies row_le(#[trigger] s[i], x) by {
            if i > 0 {
                assert(s[i] == s.drop_first()[i - 1]);
            }
        }
    }
}

/// Sorting keeps every row and puts them in order.
pub proof fn lemma_sort_rows(d: Seq<SystemRouteRow>)
    ensures
        rows_sorted(sort_rows(d)),
        sort_rows(d).to_multiset() == d.to_multiset(),
        sort_rows(d).len() == d.len(),
    decreases d.len(),
{
    broadcast use vstd::seq_lib::group_to_multiset_ensures;

    if d.len() > 0 {
        let s = sort_rows(d.drop_last());
        let x = d.last();
        lemma_sort_rows(d.drop_last());
        lemma_insert_pos_bounds(s, x);
        let p = insert_pos(s, x);
        let r = s.insert(p, x);
        s.insert_ensures(p, x);
        assert forall|i: int, j: int| 0 <= i < j < r.len() implies row_le(
            #[trigger] r[i],
            #[trigger] r[j],
        ) by {
            if j < p {
                assert(r[i] == s[i] && r[j] == s[j]);
            } else if j == p {
                assert(r[i] == s[i]);
            } else if i < p {
                assert(r[i] == s[i] && r[j] == s[j - 1]);
                assert(row_le(s[i], s[j - 1]));
            } else if i == p {
                assert(r[j] == s[j - 1]);
                assert(!row_le(s[p], x));
                if j - 1 > p {
                    assert(row_le(s[p], s[j - 1]));
                }
            } else {
                assert(r[i] == s[i - 1] && r[j] == s[j - 1]);
            }
        }
        assert(r =~= s.subrange(0, p).push(x) + s.subrange(p, s.len() as int));
        vstd::seq_lib::lemma_multiset_commutative(s.subrange(0, p).push(x), s.subrange(p, s.len() as int));
        vstd::seq_lib::lemma_multiset_commutative(s.subrange(0, p), s.subrange(p, s.len() as int));
        assert(s =~= s.subrange(0, p) + s.subrange(p, s.len() as int));
        assert(d =~= d.drop_last().push(x));
    }
}

proof fn lemma_dedup_applied(t: Seq<SystemRouteRow>)
    ensures
        dedup_applied(t).no_duplicates(),
        forall|i: int|
            0 <= i < dedup_applied(t).len() ==> applied_row(#[trigger] dedup_applied(t)[i])
                && t.contains(dedup_applied(t)[i]),
        forall|r: SystemRouteRow| #[trigger] t.contains(r) && applied_row(r) ==> dedup_applied(t).contains(r),
    decreases t.len(),
{
    if t.len() > 0 {
        let init = t.drop_last();
        let x = t.last();
        lemma_dedup_applied(init);
        let p = dedup_applied(init);
        assert forall|i: int| 0 <= i < dedup_applied(t).len() implies applied_row(
            #[trigger] dedup_applied(t)[i],
        ) && t.contains(dedup_applied(t)[i]) by {
            if i < p.len() {
                assert(dedup_applied(t)[i] == p[i]);
                let k = choose|k: int| 0 <= k < init.len() && init[k] == p[i];
                assert(t[k] == p[i]);
            } else {
                assert(t[t.len() - 1] == x);
            }
        }
        assert forall|r: SystemRouteRow| #[trigger] t.contains(r) && applied_row(r) implies dedup_applied(
            t,
        ).contains(r) by {
            let k = choose|k: int| 0 <= k < t.len() && t[k] == r;
            if k < t.len() - 1 {
                assert(init[k] == r);
                assert(init.contains(r));
                let m = choose|m: int| 0 <= m < p.len() && p[m] == r;
                if applied_row(x) && !p.contains(x) {
                    assert(dedup_applied(t)[m] == r);
                }
            } else {
                if applied_row(x) && !p.contains(x) {
                    assert(dedup_applied(t)[p.len() as int] == x);
                }
            }
        }
    }
}

/// The applied routes of a forwarding table are exactly its applied rows,
/// each once, in order.
pub proof fn lemma_applied_routes(t: Seq<SystemRouteRow>)
    ensures
        rows_sorted(applied_routes(t)),
        applied_routes(t).no_duplicates(),
        forall|i: int|
            0 <= i < applied_routes(t).len() ==> applied_row(#[trigger] applied_routes(t)[i])
                && t.contains(applied_routes(t)[i]),
        forall|r: SystemRouteRow|
            #[trigger] t.contains(r) && applied_row(r) ==> applied_routes(t).contains(r),
{
    broadcast use vstd::seq_lib::group_to_multiset_ensures;

    let d = dedup_applied(t);
    let s = applied_routes(t);
    lemma_dedup_applied(t);
    lemma_sort_rows(d);
    d.lemma_multiset_has_no_duplicates();
    s.lemma_multiset_has_no_duplicates_conv();
    assert forall|i: int| 0 <= i < s.len() implies applied_row(#[trigger] s[i]) && t.contains(s[i]) by {
        assert(s.to_multiset().contains(s[i]));
        assert(d.contains(s[i]));
        let k = choose|k: int| 0 <= k < d.len() && d[k] == s[i];
        assert(applied_row(d[k]) && t.contains(d[k]));
    }
    assert forall|r: SystemRouteRow| #[trigger] t.contains(r) && applied_row(r) implies s.contains(r) by {
        assert(d.contains(r));
        assert(d.to_multiset().contains(r));
    }
}

/// A host route (`/32`) of the forwarding table through a gateway, to an
/// address outside `0.0.0.0`, `127.0.0.0/8` and `224.0.0.0/4`, is among the
/// applied routes; a row without a gateway, without a destination or of
/// prefix zero never is.
pub proof fn lemma_host_route_listed(t: Seq<SystemRouteRow>, r: SystemRouteRow)
    requires
        t.contains(r),
    ensures
        (r.prefix_len == 32 && r.gateway != 0 && r.dest != 0 && r.dest / 0x100_0000 != 127 && !(224
            <= r.dest / 0x100_0000 && r.dest / 0x100_0000 <= 239)) ==> applied_routes(t).contains(r),
        (r.prefix_len == 0 || r.gateway == 0 || r.dest == 0) ==> !applied_routes(t).contains(r),
{
    lemma_applied_routes(t);
    if r.prefix_len == 32 && r.gateway != 0 && r.dest != 0 && r.dest / 0x100_0000 != 127 && !(224
        <= r.dest / 0x100_0000 && r.dest / 0x100_0000 <= 239) {
        lemma_host_route_applied(r);
    }
    if applied_routes(t).contains(r) {
        let i = choose|i: int| 0 <= i < applied_routes(t).len() && applied_routes(t)[i] == r;
        assert(applied_row(applied_routes(t)[i]));
    }
}

fn insert_row(v: &mut Vec<SystemRouteRow>, x: SystemRouteRow)
    ensures
        final(v)@ == old(v)@.insert(insert_pos(old(v)@, x), x),
{
    let ghost s = v@;
    let mut i: usize = 0;
    assert(s.subrange(0, s.len() as int) =~= s);
    while i < v.len() && row_le_exec(&v[i], &x)
        invariant
            s == v@,
            i <= s.len(),
            insert_pos(s, x) == i + insert_pos(s.subrange(i as int, s.len() as int), x),
        decreases s.len() - i,
    {
        proof {
            assert(s.subrange(i as int, s.len() as int).drop_first() =~= s.subrange(
                i + 1,
                s.len() as int,
            ));
        }
        i = i + 1;
    }
    v.insert(i, x);
}

fn row_le_exec(a: &SystemRouteRow, b: &SystemRouteRow) -> (r: bool)
    ensures
        r == row_le(*a, *b),
{
    a.dest < b.dest || (a.dest == b.dest && (a.prefix_len < b.prefix_len || (a.prefix_len
        == b.prefix_len && a.gateway <= b.gateway)))
}

fn has_row(v: &[SystemRouteRow], x: &SystemRouteRow) -> (b: bool)
    ensures
        b == v@.contains(*x),
{
    let mut i: usize = 0;
    while i < v.len()
        invariant
            i <= v@.len(),
            forall|k: int| 0 <= k < i ==> v@[k] != *x,
        decreases v@.len() - i,
    {
        if v[i] == *x {
            return true;
        }
        i = i + 1;
    }
    false
}

/// The applied routes of a forwarding table: rows that are no default route,
/// have a gateway and a unicast, non-loopback destination, each kept once,
/// ordered by destination, prefix length and gateway.
pub fn read_applied_ipv4_routes(table: &[SystemRouteRow]) -> (r: Vec<SystemRouteRow>)
    ensures
        r@ == applied_routes(table@),
{
    let mut d: Vec<SystemRouteRow> = Vec::new();
    let mut i: usize = 0;
    while i < table.len()
        invariant
            i <= table@.len(),
            d@ == dedup_applied(table@.subrange(0, i as int)),
        decreases table@.len() - i,
    {
        let row = table[i];
        proof {
            assert(table@.subrange(0, i + 1).drop_last() =~= table@.subrange(0, i as int));
        }
        if is_applied_row(&row) && !has_row(d.as_slice(), &row) {
            d.push(row);
        }
        i = i + 1;
    }
    assert(table@.subrange(0, table@.len() as int) =~= table@);
    let mut r: Vec<SystemRouteRow> = Vec::new();
    let mut j: usize = 0;
    while j < d.len()
        invariant
            j <= d@.len(),
            r@ == sort_rows(d@.subrange(0, j as int)),
        decreases d@.len() - j,
    {
        proof {
            assert(d@.subrange(0, j + 1).drop_last() =~= d@.subrange(0, j as int));
        }
        insert_row(&mut r, d[j]);
        j = j + 1;
    }
    assert(d@.subrange(0, d@.len() as int) =~= d@);
    r
}

/// The identity key of the rule a row reads as.
pub open spec fn row_identity_key(row: SystemRouteRow) -> Seq<char> {
    if row.prefix_len == 32 {
        "ip"@ + seq![':'] + lower(trim(ipv4_text(row.dest))) + seq!['|'] + "ip"@ + seq![':']
            + trim(ipv4_text(row.gateway))
    } else {
        "cidr"@ + seq![':'] + lower(trim(ipv4_text(row.dest) + seq!['/'] + dec(row.prefix_len as nat)))
            + seq!['|'] + "ip"@ + seq![':'] + trim(ipv4_text(row.gateway))
    }
}

/// The applied routes of the table that no configured rule already
/// describes (same identity key), in applied-route order.
pub open spec fn external_rows(config_rules: Seq<RoutingRule>, table: Seq<SystemRouteRow>) -> Seq<
    SystemRouteRow,
> {
    let keys = rule_keys(config_rules);
    applied_routes(table).filter(|row: SystemRouteRow| !keys.contains(row_identity_key(row)))
}

/// The identity keys of the rules, in order.
pub open spec fn rule_keys(rules: Seq<RoutingRule>) -> Seq<Seq<char>> {
    rules.map_values(|r: RoutingRule| identity_key_of(r))
}

/// The texts of the strings, in order.
pub open spec fn texts(v: Seq<String>) -> Seq<Seq<char>> {
    v.map_values(|x: String| x@)
}

fn has_key(keys: &[String], k: &String) -> (b: bool)
    ensures
        b == texts(keys@).contains(k@),
{
    let mut i: usize = 0;
    while i < keys.len()
        invariant
            i <= keys@.len(),
            forall|j: int| 0 <= j < i ==> keys@[j]@ != k@,
        decreases keys@.len() - i,
    {
        if keys[i] == *k {
            assert(texts(keys@)[i as int] == k@);
            return true;
        }
        i = i + 1;
    }
    proof {
        let m = texts(keys@);
        if m.contains(k@) {
            let j = choose|j: int| 0 <= j < m.len() && m[j] == k@;
            assert(keys@[j]@ == k@);
        }
    }
    false
}

/// Applied routes of the forwarding table that the configuration does not
/// already hold, as rules.
pub fn discover_external_routes(config_rules: &[RoutingRule], table: &[SystemRouteRow]) -> (r: Vec<
    RoutingRule,
>)
    ensures
        r@.len() == external_rows(config_rules@, table@).len(),
        forall|i: int|
            0 <= i < r@.len() ==> row_rule_matches(#[trigger] r@[i], external_rows(config_rules@, table@)[i]),
{
    let mut keys: Vec<String> = Vec::new();
    let mut i: usize = 0;
    while i < config_rules.len()
        invariant
            i <= config_rules@.len(),
            keys@.len() == i,
            forall|t: int| 0 <= t < i ==> (#[trigger] keys@[t])@ == identity_key_of(config_rules@[t]),
        decreases config_rules@.len() - i,
    {
        let k = rule_identity_key(&config_rules[i]);
        keys.push(k);
        i = i + 1;
    }
    let ghost ks = rule_keys(config_rules@);
    assert(texts(keys@) =~= ks);
    let ghost pred = |row: SystemRouteRow| !ks.contains(row_identity_key(row));
    let applied = read_applied_ipv4_routes(table);
    let mut out: Vec<RoutingRule> = Vec::new();
    let ghost mut kept: Seq<SystemRouteRow> = Seq::empty();
    let mut j: usize = 0;
    assert(applied@.subrange(0, 0).filter(pred) =~= Seq::<SystemRouteRow>::empty()) by {
        reveal(Seq::filter);
    }
    while j < applied.len()
        invariant
            j <= applied@.len(),
            texts(keys@) == ks,
            forall|row: SystemRouteRow| #[trigger] pred(row) == !ks.contains(row_identity_key(row)),
            kept == applied@.subrange(0, j as int).filter(pred),
            out@.len() == kept.len(),
            forall|k: int| 0 <= k < out@.len() ==> row_rule_matches(#[trigger] out@[k], kept[k]),
        decreases applied@.len() - j,
    {
        let row = applied[j];
        let rule = system_row_to_rule(&row);
        let k = rule_identity_key(&rule);
        proof {
            assert(identity_key_of(rule) == row_identity_key(row));
            assert(applied@.subrange(0, j + 1) =~= applied@.subrange(0, j as int).push(row));
            crate::text::lemma_filter_push(applied@.subrange(0, j as int), row, pred);
        }
        if !has_key(keys.as_slice(), &k) {
            out.push(rule);
            proof {
                kept = kept.push(row);
            }
        }
        j = j + 1;
    }
    assert(applied@.subrange(0, applied@.len() as int) =~= applied@);
    out
}

} // verus!
