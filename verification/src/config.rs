//! Routing rules (`routes.json`): a target (CIDR, IP, NIC or MAC) routed to a
//! destination (gateway IP, NIC or MAC), with validation and the invariant
//! that no two CIDR targets overlap.

use vstd::prelude::*;
use crate::cidr::{lemma_disjoint_blocks_share_no_address, cidr_result_matches, cidr_verdict, parse_cidr, CidrError, CidrVerdict, Ipv4Net};
use crate::ipv4::{ipv4_parse, ipv4_text, ipv4_to_string, parse_ipv4};
use crate::mac::{is_mac_address, mac_like, mac_normal, normalize_mac};
use crate::tables::{GatewayTable, MacEntry, NameTable};
use crate::paths::{has_json_extension, is_json_path};
use crate::text::{lower, lower_chars, string_of};
use crate::text::{has_char, lemma_trim_idempotent, push_decimal, dec, to_chars, trim, trimmed};

verus! {

#[derive(Clone, Copy, Debug, PartialEq, Eq, Structural)]
pub enum TargetKind {
    Nic,
    Ip,
    Cidr,
    Mac,
}

#[derive(Clone, Copy, Debug, PartialEq, Eq, Structural)]
pub enum DestinationKind {
    Nic,
    Ip,
    Mac,
}

/// A routing rule as stored in `routes.json`.
#[derive(Clone, Debug)]
pub struct RoutingRule {
    pub target: TargetKind,
    pub target_value: String,
    pub destination: DestinationKind,
    pub destination_value: String,
}

/// Why a rule or a rule list is refused.
#[derive(Clone, Debug, PartialEq, Eq)]
pub enum ConfigError {
    EmptyTargetValue,
    EmptyDestinationValue,
    Cidr(CidrError),
    /// An IP value holds a `/`.
    IpIsCidr(String),
    InvalidIpv4(String),
    InvalidTargetMac(String),
    InvalidDestinationMac(String),
    /// A CIDR target denotes the same network as an earlier rule's.
    DuplicateCidr { value: String, existing: String },
    /// A CIDR target overlaps an earlier rule's.
    OverlappingCidr { value: String, existing: String },
    RuleIndexNotFound(usize),
    /// An import file is not a `.json` file.
    ImportNotJson,
    /// No local interface has the target MAC (normalized).
    TargetMacNotFound(String),
    /// No local interface has the target NIC name (trimmed).
    TargetNicNotFound(String),
    DestinationMacNotFound { label: String, mac: String },
    DestinationNicNotFound { label: String, nic: String },
    /// The destination IP is no local interface's default gateway.
    DestinationNotGateway { label: String, ip: u32 },
}

/// Lower-case name of a target kind, as serde writes it.
pub open spec fn target_name(k: TargetKind) -> Seq<char> {
    match k {
        TargetKind::Nic => "nic"@,
        TargetKind::Ip => "ip"@,
        TargetKind::Cidr => "cidr"@,
        TargetKind::Mac => "mac"@,
    }
}

/// Lower-case name of a destination kind, as serde writes it.
pub open spec fn destination_name(k: DestinationKind) -> Seq<char> {
    match k {
        DestinationKind::Nic => "nic"@,
        DestinationKind::Ip => "ip"@,
        DestinationKind::Mac => "mac"@,
    }
}

pub fn target_kind_name(k: TargetKind) -> (s: String)
    ensures
        s@ == target_name(k),
{
    match k {
        TargetKind::Nic => String::from_str("nic"),
        TargetKind::Ip => String::from_str("ip"),
        TargetKind::Cidr => String::from_str("cidr"),
        TargetKind::Mac => String::from_str("mac"),
    }
}

pub fn destination_kind_name(k: DestinationKind) -> (s: String)
    ensures
        s@ == destination_name(k),
{
    match k {
        DestinationKind::Nic => String::from_str("nic"),
        DestinationKind::Ip => String::from_str("ip"),
        DestinationKind::Mac => String::from_str("mac"),
    }
}

/// `target:value → destination:value`.
pub open spec fn rule_label(r: RoutingRule) -> Seq<char> {
    target_name(r.target) + ":"@ + r.target_value@ + " → "@ + destination_name(r.destination)
        + ":"@ + r.destination_value@
}

/// The address an IP value denotes: trimmed, free of `/`, dotted-quad.
pub open spec fn ipv4_verdict(v: Seq<char>) -> Option<u32> {
    if trim(v).contains('/') {
        None
    } else {
        ipv4_parse(trim(v))
    }
}

/// `validate_ipv4`'s result on a value.
pub open spec fn ipv4_result_matches(r: Result<u32, ConfigError>, v: Seq<char>) -> bool {
    let t = trim(v);
    if t.contains('/') {
        r matches Err(ConfigError::IpIsCidr(x)) && x@ == t
    } else {
        match ipv4_parse(t) {
            Some(a) => r == Ok::<u32, ConfigError>(a),
            None => r matches Err(ConfigError::InvalidIpv4(x)) && x@ == t,
        }
    }
}

/// The network a CIDR value denotes (meaningful when it is accepted).
pub open spec fn cidr_net(v: Seq<char>) -> Ipv4Net {
    match cidr_verdict(v) {
        CidrVerdict::Accepted(n) => n,
        _ => Ipv4Net { addr: 0, prefix: 0 },
    }
}

pub open spec fn cidr_accepted(v: Seq<char>) -> bool {
    cidr_verdict(v) is Accepted && cidr_net(v).wf()
}

/// A target value is acceptable for its kind.
pub open spec fn target_ok(k: TargetKind, v: Seq<char>) -> bool {
    let t = trim(v);
    t.len() > 0 && match k {
        TargetKind::Cidr => cidr_accepted(t),
        TargetKind::Ip => ipv4_verdict(t) is Some,
        TargetKind::Mac => mac_like(t),
        TargetKind::Nic => true,
    }
}

/// A destination value is acceptable for its kind.
pub open spec fn destination_ok(k: DestinationKind, v: Seq<char>) -> bool {
    let t = trim(v);
    t.len() > 0 && match k {
        DestinationKind::Ip => ipv4_verdict(t) is Some,
        DestinationKind::Mac => mac_like(t),
        DestinationKind::Nic => true,
    }
}

/// `validate_target`'s result.
pub open spec fn target_result_matches(r: Result<(), ConfigError>, k: TargetKind, v: Seq<char>) -> bool {
    let t = trim(v);
    if t.len() == 0 {
        r == Err::<(), ConfigError>(ConfigError::EmptyTargetValue)
    } else {
        match k {
            TargetKind::Cidr => match r {
                Ok(_) => cidr_accepted(t),
                Err(ConfigError::Cidr(e)) => !(cidr_verdict(t) is Accepted) && cidr_result_matches(
                    Err(e),
                    t,
                ),
                _ => false,
            },
            TargetKind::Ip => match r {
                Ok(_) => ipv4_verdict(t) is Some,
                Err(e) => ipv4_result_matches(Err(e), t),
            },
            TargetKind::Mac => if mac_like(t) {
                r is Ok
            } else {
                r matches Err(ConfigError::InvalidTargetMac(x)) && x@ == t
            },
            TargetKind::Nic => r is Ok,
        }
    }
}

/// `validate_destination_value`'s result.
pub open spec fn destination_result_matches(
    r: Result<(), ConfigError>,
    k: DestinationKind,
    v: Seq<char>,
) -> bool {
    let t = trim(v);
    if t.len() == 0 {
        r == Err::<(), ConfigError>(ConfigError::EmptyDestinationValue)
    } else {
        match k {
            DestinationKind::Ip => match r {
                Ok(_) => ipv4_verdict(t) is Some,
                Err(e) => ipv4_result_matches(Err(e), t),
            },
            DestinationKind::Mac => if mac_like(t) {
                r is Ok
            } else {
                r matches Err(ConfigError::InvalidDestinationMac(x)) && x@ == t
            },
            DestinationKind::Nic => r is Ok,
        }
    }
}

/// Parses a plain IPv4 address (`validate_ipv4`): trimmed, no `/`.
pub fn validate_ipv4(ip: &str) -> (r: Result<u32, ConfigError>)
    ensures
        ipv4_result_matches(r, ip@),
        r is Ok <==> ipv4_verdict(ip@) is Some,
        r matches Ok(a) ==> ipv4_verdict(ip@) == Some(a),
{
    let t = trimmed(ip);
    let chars = to_chars(t.as_str());
    if has_char(chars.as_slice(), '/') {
        return Err(ConfigError::IpIsCidr(t));
    }
    match parse_ipv4(t.as_str()) {
        Some(a) => Ok(a),
        None => Err(ConfigError::InvalidIpv4(t)),
    }
}

/// Parses an IPv4 CIDR block (`validate_cidr`).
pub fn validate_cidr(cidr: &str) -> (r: Result<Ipv4Net, ConfigError>)
    ensures
        r matches Ok(net) ==> cidr_verdict(cidr@) == CidrVerdict::Accepted(net) && net.wf()
            && cidr_accepted(cidr@) && cidr_net(cidr@) == net,
        r matches Err(e) ==> (e matches ConfigError::Cidr(c) && cidr_result_matches(Err(c), cidr@)
            && !(cidr_verdict(cidr@) is Accepted)),
        r is Ok <==> cidr_verdict(cidr@) is Accepted,
{
    match parse_cidr(cidr) {
        Ok(net) => Ok(net),
        Err(e) => Err(ConfigError::Cidr(e)),
    }
}

/// Checks a target value against its kind (`validate_target`).
pub fn validate_target(kind: TargetKind, value: &str) -> (r: Result<(), ConfigError>)
    ensures
        target_result_matches(r, kind, value@),
        r is Ok <==> target_ok(kind, value@),
{
    let t = trimmed(value);
    proof {
        lemma_trim_idempotent(value@);
    }
    if t.unicode_len() == 0 {
        return Err(ConfigError::EmptyTargetValue);
    }
    match kind {
        TargetKind::Cidr => {
            match validate_cidr(t.as_str()) {
                Ok(_) => Ok(()),
                Err(e) => Err(e),
            }
        },
        TargetKind::Ip => {
            match validate_ipv4(t.as_str()) {
                Ok(_) => Ok(()),
                Err(e) => Err(e),
            }
        },
        TargetKind::Mac => {
            if !is_mac_address(t.as_str()) {
                return Err(ConfigError::InvalidTargetMac(t));
            }
            Ok(())
        },
        TargetKind::Nic => Ok(()),
    }
}

/// Checks a destination value against its kind (`validate_destination_value`).
pub fn validate_destination_value(kind: DestinationKind, value: &str) -> (r: Result<(), ConfigError>)
    ensures
        destination_result_matches(r, kind, value@),
        r is Ok <==> destination_ok(kind, value@),
{
    let t = trimmed(value);
    proof {
        lemma_trim_idempotent(value@);
    }
    if t.unicode_len() == 0 {
        return Err(ConfigError::EmptyDestinationValue);
    }
    match kind {
        DestinationKind::Ip => {
            match validate_ipv4(t.as_str()) {
                Ok(_) => Ok(()),
                Err(e) => Err(e),
            }
        },
        DestinationKind::Mac => {
            if !is_mac_address(t.as_str()) {
                return Err(ConfigError::InvalidDestinationMac(t));
            }
            Ok(())
        },
        DestinationKind::Nic => Ok(()),
    }
}

/// A rule whose target and destination values fit their kinds.
pub open spec fn rule_ok(r: RoutingRule) -> bool {
    target_ok(r.target, r.target_value@) && destination_ok(r.destination, r.destination_value@)
}

/// `RoutingRule::validate`'s result: the target's verdict first, then the
/// destination's.
pub open spec fn rule_result_matches(r: Result<(), ConfigError>, rule: RoutingRule) -> bool {
    &&& r is Ok <==> rule_ok(rule)
    &&& !target_ok(rule.target, rule.target_value@) ==> target_result_matches(
        r,
        rule.target,
        rule.target_value@,
    )
    &&& target_ok(rule.target, rule.target_value@) ==> destination_result_matches(
        r,
        rule.destination,
        rule.destination_value@,
    )
}

impl RoutingRule {
    /// `target:value → destination:value`.
    pub fn label(&self) -> (s: String)
        ensures
            s@ == rule_label(*self),
    {
        let mut s = target_kind_name(self.target);
        s.append(":");
        s.append(self.target_value.as_str());
        s.append(" → ");
        let d = destination_kind_name(self.destination);
        s.append(d.as_str());
        s.append(":");
        s.append(self.destination_value.as_str());
        s
    }

    /// Checks the target, then the destination.
    pub fn validate(&self) -> (r: Result<(), ConfigError>)
        ensures
            rule_result_matches(r, *self),
    {
        validate_target(self.target, self.target_value.as_str())?;
        validate_destination_value(self.destination, self.destination_value.as_str())?;
        Ok(())
    }
}


pub open spec fn is_cidr_rule(r: RoutingRule) -> bool {
    r.target == TargetKind::Cidr
}

/// The CIDR targets of two rules overlap.
pub open spec fn rules_conflict(a: RoutingRule, b: RoutingRule) -> bool {
    cidr_net(a.target_value@).overlaps(cidr_net(b.target_value@))
}

/// Every CIDR target of `rules` parses, and no two of them overlap.
pub open spec fn cidr_targets_valid(rules: Seq<RoutingRule>) -> bool {
    &&& forall|i: int|
        0 <= i < rules.len() && is_cidr_rule(#[trigger] rules[i]) ==> cidr_accepted(
            rules[i].target_value@,
        )
    &&& forall|i: int, j: int|
        #![trigger rules[i], rules[j]]
        0 <= j < i < rules.len() && is_cidr_rule(rules[i]) && is_cidr_rule(rules[j])
            ==> !rules_conflict(rules[i], rules[j])
}

/// A new CIDR value `v` is clear of the CIDR targets of `rules[..upto]`,
/// the rule at `skip` left out.
pub open spec fn new_target_clear(v: Seq<char>, rules: Seq<RoutingRule>, skip: Option<usize>, upto: int) -> bool {
    forall|k: int|
        0 <= k < upto && k < rules.len() && skip != Some(k as usize) && is_cidr_rule(
            #[trigger] rules[k],
        ) ==> cidr_accepted(rules[k].target_value@) && !cidr_net(v).overlaps(
            cidr_net(rules[k].target_value@),
        )
}

/// What `validate_new_cidr_target` answers for value `v` against `rules`
/// (the rule at `skip` left out): the first failure in rule order.
pub open spec fn new_target_result_matches(
    r: Result<(), ConfigError>,
    v: Seq<char>,
    rules: Seq<RoutingRule>,
    skip: Option<usize>,
) -> bool {
    &&& r is Ok <==> (cidr_accepted(v) && new_target_clear(v, rules, skip, rules.len() as int))
    &&& r matches Err(ConfigError::Cidr(c)) ==> ((!cidr_accepted(v) && cidr_result_matches(
        Err(c),
        v,
    )) || (cidr_accepted(v) && exists|j: int|
        0 <= j < rules.len() && skip != Some(j as usize) && is_cidr_rule(#[trigger] rules[j])
            && new_target_clear(v, rules, skip, j) && !cidr_accepted(rules[j].target_value@)
            && cidr_result_matches(Err(c), rules[j].target_value@)))
    &&& r matches Err(ConfigError::DuplicateCidr { value, existing }) ==> (value@ == v
        && cidr_accepted(v) && exists|j: int|
        0 <= j < rules.len() && skip != Some(j as usize) && is_cidr_rule(#[trigger] rules[j])
            && new_target_clear(v, rules, skip, j) && cidr_accepted(rules[j].target_value@)
            && existing@ == rules[j].target_value@ && cidr_net(v).same_network(
            cidr_net(rules[j].target_value@),
        ))
    &&& r matches Err(ConfigError::OverlappingCidr { value, existing }) ==> (value@ == v
        && cidr_accepted(v) && exists|j: int|
        0 <= j < rules.len() && skip != Some(j as usize) && is_cidr_rule(#[trigger] rules[j])
            && new_target_clear(v, rules, skip, j) && cidr_accepted(rules[j].target_value@)
            && existing@ == rules[j].target_value@ && !cidr_net(v).same_network(
            cidr_net(rules[j].target_value@),
        ) && cidr_net(v).overlaps(cidr_net(rules[j].target_value@)))
    &&& r matches Err(e) ==> (e is Cidr || e is DuplicateCidr || e is OverlappingCidr)
}

fn check_new_cidr_target(cidr: &str, existing: &[RoutingRule], skip: Option<usize>) -> (r: Result<
    (),
    ConfigError,
>)
    ensures
        new_target_result_matches(r, cidr@, existing@, skip),
{
    let net = validate_cidr(cidr)?;
    let mut j: usize = 0;
    while j < existing.len()
        invariant
            j <= existing@.len(),
            cidr_accepted(cidr@),
            net == cidr_net(cidr@),
            net.wf(),
            new_target_clear(cidr@, existing@, skip, j as int),
        decreases existing@.len() - j,
    {
        let rule = &existing[j];
        let skipped = match skip {
            Some(s) => s == j,
            None => false,
        };
        if !skipped && rule.target == TargetKind::Cidr {
            let other = match validate_cidr(rule.target_value.as_str()) {
                Ok(o) => o,
                Err(e) => {
                    assert(is_cidr_rule(existing@[j as int]));
                    return Err(e);
                },
            };
            if net.is_same_network(&other) {
                assert(is_cidr_rule(existing@[j as int]));
                proof {
                    crate::cidr::lemma_same_network_overlaps(net, other);
                }
                return Err(
                    ConfigError::DuplicateCidr {
                        value: String::from_str(cidr),
                        existing: rule.target_value.clone(),
                    },
                );
            }
            if net.overlaps_with(&other) {
                assert(is_cidr_rule(existing@[j as int]));
                return Err(
                    ConfigError::OverlappingCidr {
                        value: String::from_str(cidr),
                        existing: rule.target_value.clone(),
                    },
                );
            }
        }
        j = j + 1;
    }
    Ok(())
}

/// Refuses a CIDR value that duplicates or overlaps a CIDR target of
/// `existing` (`validate_new_cidr_target`).
pub fn validate_new_cidr_target(cidr: &str, existing: &[RoutingRule]) -> (r: Result<(), ConfigError>)
    ensures
        new_target_result_matches(r, cidr@, existing@, None),
{
    check_new_cidr_target(cidr, existing, None)
}

/// The CIDR targets of `rules[..upto]` are all accepted and pairwise clear.
pub open spec fn cidr_prefix_valid(rules: Seq<RoutingRule>, upto: int) -> bool {
    cidr_targets_valid(rules.subrange(0, upto))
}

/// Rule `i`'s CIDR target is clear of those of `rules[..upto]`.
pub open spec fn clear_of_earlier(rules: Seq<RoutingRule>, i: int, upto: int) -> bool {
    forall|k: int|
        0 <= k < upto && is_cidr_rule(#[trigger] rules[k]) ==> !rules_conflict(rules[i], rules[k])
}

/// What `validate_rules_cidr_targets` answers: `Ok` exactly when the CIDR
/// targets are valid, else the first failure in rule order.
pub open spec fn cidr_scan_result_matches(r: Result<(), ConfigError>, rules: Seq<RoutingRule>) -> bool {
    &&& r is Ok <==> cidr_targets_valid(rules)
    &&& r matches Err(ConfigError::Cidr(c)) ==> exists|i: int|
        0 <= i < rules.len() && is_cidr_rule(#[trigger] rules[i]) && cidr_prefix_valid(rules, i)
            && !cidr_accepted(rules[i].target_value@) && cidr_result_matches(
            Err(c),
            rules[i].target_value@,
        )
    &&& r matches Err(ConfigError::DuplicateCidr { value, existing }) ==> exists|i: int, j: int|
        #![trigger rules[i], rules[j]]
        0 <= j < i < rules.len() && is_cidr_rule(rules[i]) && is_cidr_rule(rules[j])
            && cidr_prefix_valid(rules, i) && cidr_accepted(rules[i].target_value@)
            && clear_of_earlier(rules, i, j) && value@ == rules[i].target_value@ && existing@
            == rule_label(rules[j]) && cidr_net(rules[i].target_value@).same_network(
            cidr_net(rules[j].target_value@),
        )
    &&& r matches Err(ConfigError::OverlappingCidr { value, existing }) ==> exists|i: int, j: int|
        #![trigger rules[i], rules[j]]
        0 <= j < i < rules.len() && is_cidr_rule(rules[i]) && is_cidr_rule(rules[j])
            && cidr_prefix_valid(rules, i) && cidr_accepted(rules[i].target_value@)
            && clear_of_earlier(rules, i, j) && value@ == rules[i].target_value@ && existing@
            == rule_label(rules[j]) && !cidr_net(rules[i].target_value@).same_network(
            cidr_net(rules[j].target_value@),
        ) && rules_conflict(rules[i], rules[j])
    &&& r matches Err(e) ==> (e is Cidr || e is DuplicateCidr || e is OverlappingCidr)
}

/// Refuses duplicate or overlapping CIDR targets in a rule list
/// (`validate_rules_cidr_targets`).
pub fn validate_rules_cidr_targets(rules: &[RoutingRule]) -> (r: Result<(), ConfigError>)
    ensures
        cidr_scan_result_matches(r, rules@),
{
    let mut nets: Vec<Ipv4Net> = Vec::new();
    let mut i: usize = 0;
    while i < rules.len()
        invariant
            i <= rules@.len(),
            nets@.len() == i,
            cidr_prefix_valid(rules@, i as int),
            forall|k: int|
                0 <= k < i && is_cidr_rule(#[trigger] rules@[k]) ==> nets@[k] == cidr_net(
                    rules@[k].target_value@,
                ) && nets@[k].wf(),
        decreases rules@.len() - i,
    {
        let rule = &rules[i];
        if rule.target != TargetKind::Cidr {
            nets.push(Ipv4Net { addr: 0, prefix: 0 });
            proof {
                assert(rules@.subrange(0, i + 1).drop_last() =~= rules@.subrange(0, i as int));
                let p = rules@.subrange(0, i + 1);
                assert forall|a: int, b: int|
                    #![trigger p[a], p[b]]
                    0 <= b < a < p.len() && is_cidr_rule(p[a]) && is_cidr_rule(p[b]) implies !rules_conflict(
                    p[a],
                    p[b],
                ) by {
                    assert(p[a] == rules@.subrange(0, i as int)[a]);
                    assert(p[b] == rules@.subrange(0, i as int)[b]);
                }
                assert forall|a: int| 0 <= a < p.len() && is_cidr_rule(#[trigger] p[a]) implies cidr_accepted(
                    p[a].target_value@,
                ) by {
                    assert(p[a] == rules@.subrange(0, i as int)[a]);
                }
            }
        } else {
            let net = match validate_cidr(rule.target_value.as_str()) {
                Ok(n) => n,
                Err(e) => {
                    assert(is_cidr_rule(rules@[i as int]));
                    return Err(e);
                },
            };
            let mut j: usize = 0;
            while j < i
                invariant
                    i < rules@.len(),
                    j <= i,
                    nets@.len() == i,
                    is_cidr_rule(rules@[i as int]),
                    *rule == rules@[i as int],
                    net == cidr_net(rules@[i as int].target_value@),
                    net.wf(),
                    cidr_accepted(rules@[i as int].target_value@),
                    cidr_prefix_valid(rules@, i as int),
                    forall|k: int|
                        0 <= k < i && is_cidr_rule(#[trigger] rules@[k]) ==> nets@[k] == cidr_net(
                            rules@[k].target_value@,
                        ) && nets@[k].wf(),
                    clear_of_earlier(rules@, i as int, j as int),
                decreases i - j,
            {
                let other = &rules[j];
                if other.target == TargetKind::Cidr {
                    let other_net = nets[j];
                    if net.is_same_network(&other_net) {
                        assert(is_cidr_rule(rules@[j as int]));
                        proof {
                            crate::cidr::lemma_same_network_overlaps(net, other_net);
                            assert(rules_conflict(rules@[i as int], rules@[j as int]));
                        }
                        let value = rule.target_value.clone();
                        let existing = other.label();
                        assert(value@ == rules@[i as int].target_value@);
                        assert(existing@ == rule_label(rules@[j as int]));
                        assert(clear_of_earlier(rules@, i as int, j as int));
                        return Err(ConfigError::DuplicateCidr { value, existing });
                    }
                    if net.overlaps_with(&other_net) {
                        assert(is_cidr_rule(rules@[j as int]));
                        assert(rules_conflict(rules@[i as int], rules@[j as int]));
                        let value = rule.target_value.clone();
                        let existing = other.label();
                        assert(value@ == rules@[i as int].target_value@);
                        assert(existing@ == rule_label(rules@[j as int]));
                        return Err(ConfigError::OverlappingCidr { value, existing });
                    }
                }
                j = j + 1;
            }
            nets.push(net);
            proof {
                let p = rules@.subrange(0, i + 1);
                let q = rules@.subrange(0, i as int);
                assert forall|a: int, b: int|
                    #![trigger p[a], p[b]]
                    0 <= b < a < p.len() && is_cidr_rule(p[a]) && is_cidr_rule(p[b]) implies !rules_conflict(
                    p[a],
                    p[b],
                ) by {
                    if a < i {
                        assert(p[a] == q[a]);
                        assert(p[b] == q[b]);
                    } else {
                        assert(p[b] == rules@[b]);
                        assert(is_cidr_rule(rules@[b]));
                    }
                }
                assert forall|a: int| 0 <= a < p.len() && is_cidr_rule(#[trigger] p[a]) implies cidr_accepted(
                    p[a].target_value@,
                ) by {
                    if a < i {
                        assert(p[a] == q[a]);
                    }
                }
            }
        }
        i = i + 1;
    }
    assert(rules@.subrange(0, rules@.len() as int) =~= rules@);
    Ok(())
}


/// Every rule is well formed and the CIDR targets are pairwise clear: what
/// a loaded `routes.json` and every successful edit guarantee.
pub open spec fn config_valid(rules: Seq<RoutingRule>) -> bool {
    &&& forall|i: int| 0 <= i < rules.len() ==> rule_ok(#[trigger] rules[i])
    &&& cidr_targets_valid(rules)
}

/// A CIDR target's verdict does not change when the value is trimmed first.
pub proof fn lemma_cidr_accepted_trim(v: Seq<char>)
    ensures
        cidr_accepted(trim(v)) == cidr_accepted(v),
        cidr_net(trim(v)) == cidr_net(v),
{
    lemma_trim_idempotent(v);
}

/// Appending a well-formed rule whose CIDR target (if any) is clear of the
/// existing ones keeps a rule list valid.
pub proof fn lemma_push_keeps_valid(rules: Seq<RoutingRule>, rule: RoutingRule)
    requires
        config_valid(rules),
        rule_ok(rule),
        is_cidr_rule(rule) ==> new_target_clear(
            rule.target_value@,
            rules,
            None,
            rules.len() as int,
        ),
    ensures
        config_valid(rules.push(rule)),
{
    let p = rules.push(rule);
    lemma_cidr_accepted_trim(rule.target_value@);
    assert forall|i: int| 0 <= i < p.len() implies rule_ok(#[trigger] p[i]) by {
        if i < rules.len() {
            assert(p[i] == rules[i]);
        }
    }
    assert forall|i: int| 0 <= i < p.len() && is_cidr_rule(#[trigger] p[i]) implies cidr_accepted(
        p[i].target_value@,
    ) by {
        if i < rules.len() {
            assert(p[i] == rules[i]);
        }
    }
    assert forall|i: int, j: int|
        #![trigger p[i], p[j]]
        0 <= j < i < p.len() && is_cidr_rule(p[i]) && is_cidr_rule(p[j]) implies !rules_conflict(
        p[i],
        p[j],
    ) by {
        assert(p[j] == rules[j]);
        if i < rules.len() {
            assert(p[i] == rules[i]);
        } else {
            assert(p[i] == rule);
            assert(is_cidr_rule(rules[j]));
        }
    }
}

/// Removing a rule keeps a rule list valid.
pub proof fn lemma_remove_keeps_valid(rules: Seq<RoutingRule>, index: int)
    requires
        config_valid(rules),
        0 <= index < rules.len(),
    ensures
        config_valid(rules.remove(index)),
{
    let p = rules.remove(index);
    assert forall|i: int| 0 <= i < p.len() implies rule_ok(#[trigger] p[i]) by {
        if i < index {
            assert(p[i] == rules[i]);
        } else {
            assert(p[i] == rules[i + 1]);
        }
    }
    assert forall|i: int| 0 <= i < p.len() && is_cidr_rule(#[trigger] p[i]) implies cidr_accepted(
        p[i].target_value@,
    ) by {
        if i < index {
            assert(p[i] == rules[i]);
        } else {
            assert(p[i] == rules[i + 1]);
        }
    }
    assert forall|i: int, j: int|
        #![trigger p[i], p[j]]
        0 <= j < i < p.len() && is_cidr_rule(p[i]) && is_cidr_rule(p[j]) implies !rules_conflict(
        p[i],
        p[j],
    ) by {
        let oi = if i < index { i } else { i + 1 };
        let oj = if j < index { j } else { j + 1 };
        assert(p[i] == rules[oi]);
        assert(p[j] == rules[oj]);
        assert(oj < oi);
    }
}

/// Overlap of two blocks does not depend on their order.
pub proof fn lemma_overlap_symmetric(a: Ipv4Net, b: Ipv4Net)
    ensures
        a.overlaps(b) == b.overlaps(a),
{
}

/// Replacing a rule by a well-formed one whose CIDR target (if any) is clear
/// of the other rules' keeps a rule list valid.
pub proof fn lemma_update_keeps_valid(rules: Seq<RoutingRule>, index: int, rule: RoutingRule)
    requires
        rules.len() <= usize::MAX,
        config_valid(rules),
        0 <= index < rules.len(),
        rule_ok(rule),
        is_cidr_rule(rule) ==> new_target_clear(
            rule.target_value@,
            rules,
            Some(index as usize),
            rules.len() as int,
        ),
    ensures
        config_valid(rules.update(index, rule)),
{
    let p = rules.update(index, rule);
    lemma_cidr_accepted_trim(rule.target_value@);
    assert forall|i: int| 0 <= i < p.len() implies rule_ok(#[trigger] p[i]) by {
        if i != index {
            assert(p[i] == rules[i]);
        }
    }
    assert forall|i: int| 0 <= i < p.len() && is_cidr_rule(#[trigger] p[i]) implies cidr_accepted(
        p[i].target_value@,
    ) by {
        if i != index {
            assert(p[i] == rules[i]);
        }
    }
    assert forall|i: int, j: int|
        #![trigger p[i], p[j]]
        0 <= j < i < p.len() && is_cidr_rule(p[i]) && is_cidr_rule(p[j]) implies !rules_conflict(
        p[i],
        p[j],
    ) by {
        if i != index && j != index {
            assert(p[i] == rules[i]);
            assert(p[j] == rules[j]);
        } else if i == index {
            assert(p[j] == rules[j]);
            assert(is_cidr_rule(rules[j]));
            assert((j as usize) != (index as usize));
        } else {
            assert(p[i] == rules[i]);
            assert(is_cidr_rule(rules[i]));
            assert((i as usize) != (index as usize));
            lemma_overlap_symmetric(cidr_net(rule.target_value@), cidr_net(rules[i].target_value@));
        }
    }
}

/// In a valid rule list no address lies in the CIDR targets of two
/// different rules, so at most one CIDR rule can match a packet.
pub proof fn lemma_valid_cidr_targets_disjoint(rules: Seq<RoutingRule>, i: int, j: int, ip: u32)
    requires
        config_valid(rules),
        0 <= i < rules.len(),
        0 <= j < rules.len(),
        i != j,
        is_cidr_rule(rules[i]),
        is_cidr_rule(rules[j]),
    ensures
        !(cidr_net(rules[i].target_value@).contains(ip) && cidr_net(
            rules[j].target_value@,
        ).contains(ip)),
{
    let a = cidr_net(rules[i].target_value@);
    let b = cidr_net(rules[j].target_value@);
    assert(cidr_accepted(rules[i].target_value@));
    assert(cidr_accepted(rules[j].target_value@));
    if j < i {
        assert(!rules_conflict(rules[i], rules[j]));
        lemma_disjoint_blocks_share_no_address(a, b, ip);
    } else {
        assert(!rules_conflict(rules[j], rules[i]));
        lemma_overlap_symmetric(a, b);
        lemma_disjoint_blocks_share_no_address(a, b, ip);
    }
}

/// Why a rule list is refused: the first rule that fails its own checks, or,
/// when every rule passes them, the first CIDR-target conflict.
pub open spec fn rules_error_matches(e: ConfigError, rules: Seq<RoutingRule>) -> bool {
    (exists|i: int|
        0 <= i < rules.len() && !rule_ok(#[trigger] rules[i]) && (forall|k: int|
            0 <= k < i ==> rule_ok(#[trigger] rules[k])) && rule_result_matches(Err(e), rules[i]))
        || ((forall|k: int| 0 <= k < rules.len() ==> rule_ok(#[trigger] rules[k]))
        && cidr_scan_result_matches(Err(e), rules))
}

/// The routing rules of `routes.json`.
pub struct Config {
    pub rules: Vec<RoutingRule>,
}

impl Config {
    pub open spec fn valid(self) -> bool {
        config_valid(self.rules@)
    }

    pub fn new() -> (c: Config)
        ensures
            c.rules@ == Seq::<RoutingRule>::empty(),
            c.valid(),
    {
        Config { rules: Vec::new() }
    }

    /// Checks rules read from `routes.json` (`from_json_str` after parsing):
    /// each rule in order, then the CIDR targets together.
    pub fn from_rules(rules: Vec<RoutingRule>) -> (r: Result<Config, ConfigError>)
        ensures
            r is Ok <==> config_valid(rules@),
            r matches Ok(c) ==> c.rules@ == rules@,
            r matches Err(e) ==> rules_error_matches(e, rules@),
    {
        let mut i: usize = 0;
        while i < rules.len()
            invariant
                i <= rules@.len(),
                forall|k: int| 0 <= k < i ==> rule_ok(#[trigger] rules@[k]),
            decreases rules@.len() - i,
        {
            match rules[i].validate() {
                Ok(()) => {},
                Err(e) => {
                    assert(!rule_ok(rules@[i as int]));
                    return Err(e);
                },
            }
            i = i + 1;
        }
        validate_rules_cidr_targets(rules.as_slice())?;
        Ok(Config { rules })
    }

    /// Checks rules imported from a file: only a `.json` file is accepted,
    /// and its rules (as parsed) are checked as `from_rules` checks them.
    pub fn parse_import_file(path: &str, rules: Vec<RoutingRule>) -> (r: Result<
        Vec<RoutingRule>,
        ConfigError,
    >)
        ensures
            !has_json_extension(path@) ==> r == Err::<Vec<RoutingRule>, ConfigError>(
                ConfigError::ImportNotJson,
            ),
            has_json_extension(path@) ==> (r is Ok <==> config_valid(rules@)),
            has_json_extension(path@) ==> (r matches Err(e) ==> rules_error_matches(e, rules@)),
            r matches Ok(v) ==> v@ == rules@,
    {
        if !is_json_path(path) {
            return Err(ConfigError::ImportNotJson);
        }
        let c = Config::from_rules(rules)?;
        Ok(c.rules)
    }

    /// Appends a rule after checking it, and its CIDR target against the
    /// existing ones.
    pub fn add_rule(&mut self, rule: RoutingRule) -> (r: Result<(), ConfigError>)
        ensures
            r is Ok <==> (rule_ok(rule) && (is_cidr_rule(rule) ==> new_target_clear(
                rule.target_value@,
                old(self).rules@,
                None,
                old(self).rules@.len() as int,
            ))),
            r is Ok ==> final(self).rules@ == old(self).rules@.push(rule),
            r is Err ==> final(self).rules@ == old(self).rules@,
            !rule_ok(rule) ==> rule_result_matches(r, rule),
            rule_ok(rule) && is_cidr_rule(rule) ==> new_target_result_matches(
                r,
                rule.target_value@,
                old(self).rules@,
                None,
            ),
            old(self).valid() && r is Ok ==> final(self).valid(),
    {
        rule.validate()?;
        if rule.target == TargetKind::Cidr {
            proof {
                lemma_cidr_accepted_trim(rule.target_value@);
            }
            check_new_cidr_target(rule.target_value.as_str(), self.rules.as_slice(), None)?;
        }
        proof {
            if old(self).valid() {
                lemma_push_keeps_valid(self.rules@, rule);
            }
        }
        self.rules.push(rule);
        Ok(())
    }

    /// Removes the rule at `index`; false when there is none.
    pub fn remove_rule_at(&mut self, index: usize) -> (b: bool)
        ensures
            b == (index < old(self).rules@.len()),
            b ==> final(self).rules@ == old(self).rules@.remove(index as int),
            !b ==> final(self).rules@ == old(self).rules@,
            old(self).valid() ==> final(self).valid(),
    {
        if index >= self.rules.len() {
            return false;
        }
        proof {
            if old(self).valid() {
                lemma_remove_keeps_valid(self.rules@, index as int);
            }
        }
        self.rules.remove(index);
        true
    }

    /// Replaces the rule at `index` after checking it, and its CIDR target
    /// against the other rules'.
    pub fn replace_rule_at(&mut self, index: usize, rule: RoutingRule) -> (r: Result<(), ConfigError>)
        ensures
            index >= old(self).rules@.len() ==> r == Err::<(), ConfigError>(
                ConfigError::RuleIndexNotFound(index),
            ),
            index < old(self).rules@.len() ==> (r is Ok <==> (rule_ok(rule) && (is_cidr_rule(rule)
                ==> new_target_clear(
                rule.target_value@,
                old(self).rules@,
                Some(index),
                old(self).rules@.len() as int,
            )))),
            index < old(self).rules@.len() && !rule_ok(rule) ==> rule_result_matches(r, rule),
            index < old(self).rules@.len() && rule_ok(rule) && is_cidr_rule(rule)
                ==> new_target_result_matches(r, rule.target_value@, old(self).rules@, Some(index)),
            r is Ok ==> final(self).rules@ == old(self).rules@.update(index as int, rule),
            r is Err ==> final(self).rules@ == old(self).rules@,
            old(self).valid() && r is Ok ==> final(self).valid(),
    {
        if index >= self.rules.len() {
            return Err(ConfigError::RuleIndexNotFound(index));
        }
        rule.validate()?;
        if rule.target == TargetKind::Cidr {
            proof {
                lemma_cidr_accepted_trim(rule.target_value@);
            }
            check_new_cidr_target(rule.target_value.as_str(), self.rules.as_slice(), Some(index))?;
        }
        proof {
            if old(self).valid() {
                lemma_update_keeps_valid(self.rules@, index as int, rule);
            }
        }
        self.rules.set(index, rule);
        Ok(())
    }

    pub fn get_rules(&self) -> (r: &[RoutingRule])
        ensures
            r@ == self.rules@,
    {
        self.rules.as_slice()
    }
}


/// A compiled match pattern: a CIDR block, one address, or an interface.
#[derive(Clone, Copy, Debug, PartialEq, Eq, Structural)]
pub enum MatchPattern {
    Network(Ipv4Net),
    Ip(u32),
    Interface(u32),
}

/// Outbound packets match on destination IP, inbound ones on source IP;
/// NIC and MAC targets match on the packet's interface index.
pub open spec fn pattern_matches(p: MatchPattern, peer_ip: u32, if_idx: u32) -> bool {
    match p {
        MatchPattern::Network(net) => net.contains(peer_ip),
        MatchPattern::Ip(ip) => ip == peer_ip,
        MatchPattern::Interface(index) => index == if_idx,
    }
}

/// What each kind of pattern matches: a block the addresses between its
/// network and broadcast addresses, a single address only itself, an
/// interface target only packets on that interface.
pub proof fn lemma_pattern_matches_meaning(p: MatchPattern, peer_ip: u32, if_idx: u32)
    ensures
        p matches MatchPattern::Ip(a) ==> (pattern_matches(p, peer_ip, if_idx) <==> a == peer_ip),
        p matches MatchPattern::Interface(i) ==> (pattern_matches(p, peer_ip, if_idx) <==> i
            == if_idx),
        p matches MatchPattern::Network(net) ==> net.wf() ==> (pattern_matches(p, peer_ip, if_idx)
            <==> (net.network() <= peer_ip && peer_ip <= net.broadcast())),
{
    if let MatchPattern::Network(net) = p {
        if net.wf() {
            crate::cidr::lemma_contains_iff_in_range(net, peer_ip);
        }
    }
}

/// One routing rule with its destination resolved to an interface.
#[derive(Clone, Debug)]
pub struct CompiledRule {
    pub label: String,
    pub gateway: u32,
    pub match_pattern: MatchPattern,
    pub if_index: u32,
    pub egress_ipv4: Option<u32>,
    /// Address written into matching packets; compiled rules route only.
    pub rewrite_to: Option<u32>,
}

impl CompiledRule {
    pub fn matches(&self, peer_ip: u32, if_idx: u32) -> (b: bool)
        ensures
            b == pattern_matches(self.match_pattern, peer_ip, if_idx),
    {
        match self.match_pattern {
            MatchPattern::Network(net) => net.contains_address(peer_ip),
            MatchPattern::Ip(ip) => ip == peer_ip,
            MatchPattern::Interface(index) => index == if_idx,
        }
    }
}

/// The pattern a target compiles to against the host's MAC and NIC tables.
pub open spec fn compiled_pattern(
    kind: TargetKind,
    v: Seq<char>,
    macs: Map<Seq<char>, MacEntry>,
    nics: Map<Seq<char>, MacEntry>,
) -> Option<MatchPattern> {
    let t = trim(v);
    match kind {
        TargetKind::Cidr => if cidr_accepted(t) {
            Some(MatchPattern::Network(cidr_net(t)))
        } else {
            None
        },
        TargetKind::Ip => match ipv4_verdict(t) {
            Some(a) => Some(MatchPattern::Ip(a)),
            None => None,
        },
        TargetKind::Mac => if macs.contains_key(mac_normal(t)) {
            Some(MatchPattern::Interface(macs[mac_normal(t)].if_index))
        } else {
            None
        },
        TargetKind::Nic => if nics.contains_key(lower(t)) {
            Some(MatchPattern::Interface(nics[lower(t)].if_index))
        } else {
            None
        },
    }
}

/// The error `compile_target` gives when `compiled_pattern` is `None`.
pub open spec fn target_compile_error_matches(
    e: ConfigError,
    kind: TargetKind,
    v: Seq<char>,
) -> bool {
    let t = trim(v);
    match kind {
        TargetKind::Cidr => e matches ConfigError::Cidr(c) && cidr_result_matches(Err(c), t),
        TargetKind::Ip => ipv4_result_matches(Err(e), t),
        TargetKind::Mac => e matches ConfigError::TargetMacNotFound(m) && m@ == mac_normal(t),
        TargetKind::Nic => e matches ConfigError::TargetNicNotFound(n) && n@ == t,
    }
}

/// The interface entry a rule's destination resolves to.
pub open spec fn resolved_entry(
    rule: RoutingRule,
    macs: Map<Seq<char>, MacEntry>,
    nics: Map<Seq<char>, MacEntry>,
    gateways: Map<u32, MacEntry>,
) -> Option<MacEntry> {
    let v = rule.destination_value@;
    match rule.destination {
        DestinationKind::Mac => if macs.contains_key(mac_normal(v)) {
            Some(macs[mac_normal(v)])
        } else {
            None
        },
        DestinationKind::Nic => if nics.contains_key(lower(trim(v))) {
            Some(nics[lower(trim(v))])
        } else {
            None
        },
        DestinationKind::Ip => match ipv4_verdict(v) {
            Some(g) => if gateways.contains_key(g) {
                Some(gateways[g])
            } else {
                None
            },
            None => None,
        },
    }
}

/// The error `resolve_destination` gives when `resolved_entry` is `None`.
pub open spec fn destination_error_matches(e: ConfigError, rule: RoutingRule) -> bool {
    let v = rule.destination_value@;
    match rule.destination {
        DestinationKind::Mac => e matches ConfigError::DestinationMacNotFound { label, mac }
            && label@ == rule_label(rule) && mac@ == mac_normal(v),
        DestinationKind::Nic => e matches ConfigError::DestinationNicNotFound { label, nic }
            && label@ == rule_label(rule) && nic@ == trim(v),
        DestinationKind::Ip => match ipv4_verdict(v) {
            Some(g) => e matches ConfigError::DestinationNotGateway { label, ip } && label@
                == rule_label(rule) && ip == g,
            None => ipv4_result_matches(Err(e), v),
        },
    }
}

/// Compiles a target against the host's MAC and NIC tables.
pub fn compile_target(kind: TargetKind, value: &str, mac_map: &NameTable, nic_map: &NameTable) -> (r:
    Result<MatchPattern, ConfigError>)
    requires
        mac_map.wf(),
        nic_map.wf(),
    ensures
        r matches Ok(p) ==> compiled_pattern(kind, value@, mac_map@, nic_map@) == Some(p),
        r matches Err(e) ==> compiled_pattern(kind, value@, mac_map@, nic_map@) is None
            && target_compile_error_matches(e, kind, value@),
{
    let t = trimmed(value);
    proof {
        lemma_trim_idempotent(value@);
    }
    match kind {
        TargetKind::Cidr => {
            let net = validate_cidr(t.as_str())?;
            Ok(MatchPattern::Network(net))
        },
        TargetKind::Ip => {
            let ip = validate_ipv4(t.as_str())?;
            Ok(MatchPattern::Ip(ip))
        },
        TargetKind::Mac => {
            let mac = normalize_mac(t.as_str());
            match mac_map.get(mac.as_str()) {
                Some(entry) => Ok(MatchPattern::Interface(entry.if_index)),
                None => Err(ConfigError::TargetMacNotFound(mac)),
            }
        },
        TargetKind::Nic => {
            let chars = to_chars(t.as_str());
            let key = string_of(lower_chars(chars.as_slice()).as_slice());
            match nic_map.get(key.as_str()) {
                Some(entry) => Ok(MatchPattern::Interface(entry.if_index)),
                None => Err(ConfigError::TargetNicNotFound(t)),
            }
        },
    }
}

/// Resolves a rule's destination to an interface entry.
pub fn resolve_destination(
    rule: &RoutingRule,
    mac_map: &NameTable,
    nic_map: &NameTable,
    gw_map: &GatewayTable,
) -> (r: Result<MacEntry, ConfigError>)
    requires
        mac_map.wf(),
        nic_map.wf(),
    ensures
        r matches Ok(entry) ==> resolved_entry(*rule, mac_map@, nic_map@, gw_map@) == Some(entry),
        r matches Err(e) ==> resolved_entry(*rule, mac_map@, nic_map@, gw_map@) is None
            && destination_error_matches(e, *rule),
{
    let label = rule.label();
    match rule.destination {
        DestinationKind::Mac => {
            let mac = normalize_mac(rule.destination_value.as_str());
            match mac_map.get(mac.as_str()) {
                Some(entry) => Ok(entry),
                None => Err(ConfigError::DestinationMacNotFound { label, mac }),
            }
        },
        DestinationKind::Nic => {
            let nic = trimmed(rule.destination_value.as_str());
            let chars = to_chars(nic.as_str());
            let key = string_of(lower_chars(chars.as_slice()).as_slice());
            match nic_map.get(key.as_str()) {
                Some(entry) => Ok(entry),
                None => Err(ConfigError::DestinationNicNotFound { label, nic }),
            }
        },
        DestinationKind::Ip => {
            let gw = validate_ipv4(rule.destination_value.as_str())?;
            match gw_map.get(gw) {
                Some(entry) => Ok(entry),
                None => Err(ConfigError::DestinationNotGateway { label, ip: gw }),
            }
        },
    }
}

/// The compiled form of a rule whose target and destination resolve.
pub open spec fn compiled_as(
    c: CompiledRule,
    rule: RoutingRule,
    macs: Map<Seq<char>, MacEntry>,
    nics: Map<Seq<char>, MacEntry>,
    gateways: Map<u32, MacEntry>,
) -> bool {
    &&& compiled_pattern(rule.target, rule.target_value@, macs, nics) == Some(c.match_pattern)
    &&& resolved_entry(rule, macs, nics, gateways) matches Some(entry) && c.gateway == entry.gateway
        && c.if_index == entry.if_index && c.egress_ipv4 == entry.egress_ipv4
    &&& c.label@ == rule_label(rule)
    &&& c.rewrite_to is None
}

/// A rule compiles: its target and its destination resolve.
pub open spec fn rule_compiles(
    rule: RoutingRule,
    macs: Map<Seq<char>, MacEntry>,
    nics: Map<Seq<char>, MacEntry>,
    gateways: Map<u32, MacEntry>,
) -> bool {
    compiled_pattern(rule.target, rule.target_value@, macs, nics) is Some && resolved_entry(
        rule,
        macs,
        nics,
        gateways,
    ) is Some
}

/// The error of the first rule that does not compile: its target's, or else
/// its destination's.
pub open spec fn compile_error_matches(
    e: ConfigError,
    rule: RoutingRule,
    macs: Map<Seq<char>, MacEntry>,
    nics: Map<Seq<char>, MacEntry>,
) -> bool {
    if compiled_pattern(rule.target, rule.target_value@, macs, nics) is None {
        target_compile_error_matches(e, rule.target, rule.target_value@)
    } else {
        destination_error_matches(e, rule)
    }
}

impl Config {
    /// Builds the in-memory routing table against the host's adapter tables.
    pub fn compile_rules(&self, mac_map: &NameTable, nic_map: &NameTable, gw_map: &GatewayTable) -> (r:
        Result<Vec<CompiledRule>, ConfigError>)
        requires
            mac_map.wf(),
            nic_map.wf(),
            ensures
            r is Ok <==> forall|i: int|
                0 <= i < self.rules@.len() ==> rule_compiles(
                    #[trigger] self.rules@[i],
                    mac_map@,
                    nic_map@,
                    gw_map@,
                ),
            r matches Ok(c) ==> c@.len() == self.rules@.len() && forall|i: int|
                0 <= i < c@.len() ==> compiled_as(
                    #[trigger] c@[i],
                    self.rules@[i],
                    mac_map@,
                    nic_map@,
                    gw_map@,
                ),
            r matches Err(e) ==> exists|i: int|
                0 <= i < self.rules@.len() && !rule_compiles(
                    #[trigger] self.rules@[i],
                    mac_map@,
                    nic_map@,
                    gw_map@,
                ) && (forall|k: int|
                    0 <= k < i ==> rule_compiles(
                        #[trigger] self.rules@[k],
                        mac_map@,
                        nic_map@,
                        gw_map@,
                    )) && compile_error_matches(e, self.rules@[i], mac_map@, nic_map@),
    {
        let mut compiled: Vec<CompiledRule> = Vec::new();
        let mut i: usize = 0;
        while i < self.rules.len()
            invariant
                mac_map.wf(),
                nic_map.wf(),
                        i <= self.rules@.len(),
                compiled@.len() == i,
                forall|k: int|
                    0 <= k < i ==> rule_compiles(
                        #[trigger] self.rules@[k],
                        mac_map@,
                        nic_map@,
                        gw_map@,
                    ),
                forall|k: int|
                    0 <= k < i ==> compiled_as(
                        #[trigger] compiled@[k],
                        self.rules@[k],
                        mac_map@,
                        nic_map@,
                        gw_map@,
                    ),
            decreases self.rules@.len() - i,
        {
            let rule = &self.rules[i];
            let match_pattern = match compile_target(
                rule.target,
                rule.target_value.as_str(),
                mac_map,
                nic_map,
            ) {
                Ok(p) => p,
                Err(e) => {
                    assert(!rule_compiles(self.rules@[i as int], mac_map@, nic_map@, gw_map@));
                    return Err(e);
                },
            };
            let entry = match resolve_destination(rule, mac_map, nic_map, gw_map) {
                Ok(entry) => entry,
                Err(e) => {
                    assert(!rule_compiles(self.rules@[i as int], mac_map@, nic_map@, gw_map@));
                    return Err(e);
                },
            };
            compiled.push(
                CompiledRule {
                    label: rule.label(),
                    gateway: entry.gateway,
                    match_pattern,
                    if_index: entry.if_index,
                    egress_ipv4: entry.egress_ipv4,
                    rewrite_to: None,
                },
            );
            i = i + 1;
        }
        Ok(compiled)
    }

    /// The first compiled rule that matches a packet's peer address or
    /// interface, in table order.
    pub fn find_compiled<'a>(compiled: &'a [CompiledRule], peer_ip: u32, if_idx: u32) -> (r: Option<
        &'a CompiledRule,
    >)
        ensures
            r is None <==> forall|i: int|
                0 <= i < compiled@.len() ==> !pattern_matches(
                    (#[trigger] compiled@[i]).match_pattern,
                    peer_ip,
                    if_idx,
                ),
            r matches Some(x) ==> exists|i: int|
                0 <= i < compiled@.len() && *x == compiled@[i] && pattern_matches(
                    (#[trigger] compiled@[i]).match_pattern,
                    peer_ip,
                    if_idx,
                ) && forall|k: int|
                    0 <= k < i ==> !pattern_matches(
                        (#[trigger] compiled@[k]).match_pattern,
                        peer_ip,
                        if_idx,
                    ),
    {
        let mut i: usize = 0;
        while i < compiled.len()
            invariant
                i <= compiled@.len(),
                forall|k: int|
                    0 <= k < i ==> !pattern_matches(
                        (#[trigger] compiled@[k]).match_pattern,
                        peer_ip,
                        if_idx,
                    ),
            decreases compiled@.len() - i,
        {
            if compiled[i].matches(peer_ip, if_idx) {
                return Some(&compiled[i]);
            }
            i = i + 1;
        }
        None
    }
}


/// The text of a refused CIDR target.
pub open spec fn cidr_target_message(e: CidrError) -> Seq<char> {
    match e {
        CidrError::Wildcard(t) => "CIDR target \""@ + t@
            + "\" must be a CIDR block (e.g. 10.0.0.0/8); wildcards are not supported"@,
        CidrError::MissingPrefix(t) => "CIDR target \""@ + t@
            + "\" must include a prefix (e.g. 10.0.0.0/8)"@,
        CidrError::Invalid(t) => "invalid CIDR \""@ + t@ + "\""@,
        CidrError::NotIpv4(t) => "CIDR target \""@ + t@ + "\" must be an IPv4 CIDR block"@,
    }
}

fn cidr_target_text(e: &CidrError) -> (s: String)
    ensures
        s@ == cidr_target_message(*e),
{
    match e {
        CidrError::Wildcard(t) => {
            let mut s = String::from_str("CIDR target \"");
            s.append(t.as_str());
            s.append("\" must be a CIDR block (e.g. 10.0.0.0/8); wildcards are not supported");
            s
        },
        CidrError::MissingPrefix(t) => {
            let mut s = String::from_str("CIDR target \"");
            s.append(t.as_str());
            s.append("\" must include a prefix (e.g. 10.0.0.0/8)");
            s
        },
        CidrError::Invalid(t) => {
            let mut s = String::from_str("invalid CIDR \"");
            s.append(t.as_str());
            s.append("\"");
            s
        },
        CidrError::NotIpv4(t) => {
            let mut s = String::from_str("CIDR target \"");
            s.append(t.as_str());
            s.append("\" must be an IPv4 CIDR block");
            s
        },
    }
}

impl ConfigError {
    /// The message a user sees for the error.
    pub open spec fn message(self) -> Seq<char> {
        match self {
            ConfigError::EmptyTargetValue => "target-value must not be empty"@,
            ConfigError::EmptyDestinationValue => "destination-value must not be empty"@,
            ConfigError::Cidr(e) => cidr_target_message(e),
            ConfigError::IpIsCidr(t) => "IP target \""@ + t@
                + "\" must be a plain IPv4 address, not a CIDR block"@,
            ConfigError::InvalidIpv4(t) => "invalid IPv4 address \""@ + t@ + "\""@,
            ConfigError::InvalidTargetMac(t) => "target-value \""@ + t@
                + "\" is not a valid MAC address (expected AA:BB:CC:DD:EE:FF)"@,
            ConfigError::InvalidDestinationMac(t) => "destination-value \""@ + t@
                + "\" is not a valid MAC address (expected AA:BB:CC:DD:EE:FF)"@,
            ConfigError::DuplicateCidr { value, existing } => "duplicate CIDR target \""@
                + value@ + "\" (same network as \""@ + existing@ + "\")"@,
            ConfigError::OverlappingCidr { value, existing } => "overlapping CIDR targets \""@
                + value@ + "\" and \""@ + existing@ + "\""@,
            ConfigError::RuleIndexNotFound(i) => "rule index "@ + dec(i as nat) + " not found"@,
            ConfigError::ImportNotJson => "import only supports JSON files with the new rule format (target, target-value, destination, destination-value)"@,
            ConfigError::TargetMacNotFound(m) => "target MAC "@ + m@
                + " not found on any local interface"@,
            ConfigError::TargetNicNotFound(n) => "target NIC \""@ + n@
                + "\" not found on any local interface"@,
            ConfigError::DestinationMacNotFound { label, mac } => "rule "@ + label@
                + ": destination MAC "@ + mac@ + " not found on any local interface"@,
            ConfigError::DestinationNicNotFound { label, nic } => "rule "@ + label@
                + ": destination NIC \""@ + nic@ + "\" not found on any local interface"@,
            ConfigError::DestinationNotGateway { label, ip } => "rule "@ + label@
                + ": destination IP "@ + ipv4_text(ip)
                + " is not a default gateway on any local interface"@,
        }
    }

    /// The message a user sees for the error.
    pub fn to_string(&self) -> (s: String)
        ensures
            s@ == self.message(),
    {
        match self {
            ConfigError::EmptyTargetValue => String::from_str("target-value must not be empty"),
            ConfigError::EmptyDestinationValue => String::from_str(
                "destination-value must not be empty",
            ),
            ConfigError::Cidr(e) => cidr_target_text(e),
            ConfigError::IpIsCidr(t) => {
                let mut s = String::from_str("IP target \"");
                s.append(t.as_str());
                s.append("\" must be a plain IPv4 address, not a CIDR block");
                s
            },
            ConfigError::InvalidIpv4(t) => {
                let mut s = String::from_str("invalid IPv4 address \"");
                s.append(t.as_str());
                s.append("\"");
                s
            },
            ConfigError::InvalidTargetMac(t) => {
                let mut s = String::from_str("target-value \"");
                s.append(t.as_str());
                s.append("\" is not a valid MAC address (expected AA:BB:CC:DD:EE:FF)");
                s
            },
            ConfigError::InvalidDestinationMac(t) => {
                let mut s = String::from_str("destination-value \"");
                s.append(t.as_str());
                s.append("\" is not a valid MAC address (expected AA:BB:CC:DD:EE:FF)");
                s
            },
            ConfigError::DuplicateCidr { value, existing } => {
                let mut s = String::from_str("duplicate CIDR target \"");
                s.append(value.as_str());
                s.append("\" (same network as \"");
                s.append(existing.as_str());
                s.append("\")");
                s
            },
            ConfigError::OverlappingCidr { value, existing } => {
                let mut s = String::from_str("overlapping CIDR targets \"");
                s.append(value.as_str());
                s.append("\" and \"");
                s.append(existing.as_str());
                s.append("\"");
                s
            },
            ConfigError::RuleIndexNotFound(i) => {
                let mut s = String::from_str("rule index ");
                push_decimal(&mut s, *i);
                s.append(" not found");
                s
            },
            ConfigError::ImportNotJson => String::from_str(
                "import only supports JSON files with the new rule format (target, target-value, destination, destination-value)",
            ),
            ConfigError::TargetMacNotFound(m) => {
                let mut s = String::from_str("target MAC ");
                s.append(m.as_str());
                s.append(" not found on any local interface");
                s
            },
            ConfigError::TargetNicNotFound(n) => {
                let mut s = String::from_str("target NIC \"");
                s.append(n.as_str());
                s.append("\" not found on any local interface");
                s
            },
            ConfigError::DestinationMacNotFound { label, mac } => {
                let mut s = String::from_str("rule ");
                s.append(label.as_str());
                s.append(": destination MAC ");
                s.append(mac.as_str());
                s.append(" not found on any local interface");
                s
            },
            ConfigError::DestinationNicNotFound { label, nic } => {
                let mut s = String::from_str("rule ");
                s.append(label.as_str());
                s.append(": destination NIC \"");
                s.append(nic.as_str());
                s.append("\" not found on any local interface");
                s
            },
            ConfigError::DestinationNotGateway { label, ip } => {
                let mut s = String::from_str("rule ");
                s.append(label.as_str());
                s.append(": destination IP ");
                let a = ipv4_to_string(*ip);
                s.append(a.as_str());
                s.append(" is not a default gateway on any local interface");
                s
            },
        }
    }
}

} // verus!
