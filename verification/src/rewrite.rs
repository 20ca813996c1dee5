//! Rewrite rules of the earlier `routes.json` format: an IPv4 CIDR block and a
//! `rewrite-to` value naming a MAC address, a NIC or a gateway, with the
//! invariant that no two blocks overlap.

use vstd::prelude::*;
use crate::cidr::{
    cidr_result_matches, cidr_verdict, lemma_disjoint_blocks_share_no_address,
    lemma_same_network_overlaps, parse_cidr, CidrError, CidrVerdict, Ipv4Net,
};
use crate::ipv4::{ipv4_parse, parse_ipv4};
use crate::mac::{is_mac_address, mac_like, mac_normal, normalize_mac};
use crate::paths::{has_json_extension, is_json_path};
use crate::tables::{GatewayTable, MacEntry, NameTable};
use crate::text::{
    lower, lower_string,
    lemma_filter_push, lines, lines_of, string_of_range, to_chars, trim, trim_end_index, trim_start_index, trimmed,
};

verus! {

/// What a `rewrite-to` value names.
#[derive(Clone, Debug, PartialEq, Eq)]
pub enum RewriteTargetKind {
    /// A MAC address, normalized to `AA:BB:CC:DD:EE:FF`.
    Mac(String),
    /// A NIC name, trimmed.
    Nic(String),
    /// A gateway IPv4 address, trimmed.
    Gateway(String),
}

/// A rewrite rule: traffic to `cidr` goes to what `rewrite_to` names.
#[derive(Clone, Debug, PartialEq, Eq)]
pub struct RoutingRule {
    pub cidr: String,
    pub rewrite_to: String,
}

/// Why a rewrite rule, a rule list or an edit is refused.
#[derive(Clone, Debug, PartialEq, Eq)]
pub enum RuleError {
    /// The rule uses the retired `nic` field.
    DeprecatedNic { cidr: String, nic: String },
    /// The rule names no rewrite target.
    MissingRewriteTo(String),
    /// The rule's CIDR text is not an IPv4 block.
    Cidr(CidrError),
    /// `rewrite-to` is blank when classified.
    EmptyRewriteTo,
    /// `rewrite-to` is blank when a rule is added.
    RewriteToRequired,
    /// The block is the same network as an earlier rule's.
    DuplicateCidr { cidr: String, existing: String },
    /// The block overlaps an earlier rule's.
    OverlappingCidr { cidr: String, existing: String },
    /// No local interface has the rule's MAC.
    MacNotFound { cidr: String, mac: String },
    /// No local interface has the rule's NIC name.
    NicNotFound { cidr: String, nic: String },
    /// The rule's gateway is no local interface's default gateway.
    GatewayNotFound { cidr: String, gateway: String },
    /// A JSON import file could not be read as rules or as CIDR texts; holds
    /// the reader's explanation.
    ImportUnreadable(String),
}

/// The text of a refused CIDR block.
pub open spec fn cidr_block_message(e: CidrError) -> Seq<char> {
    match e {
        CidrError::Wildcard(t) => "routing rule \""@ + t@
            + "\" must be a CIDR block (e.g. 10.0.0.0/8); wildcards are not supported"@,
        CidrError::MissingPrefix(t) => "routing rule \""@ + t@
            + "\" must be a CIDR block (e.g. 10.0.0.0/8), not a plain IP address"@,
        CidrError::Invalid(t) => "invalid CIDR \""@ + t@ + "\""@,
        CidrError::NotIpv4(t) => "routing rule \""@ + t@ + "\" must be an IPv4 CIDR block"@,
    }
}

fn cidr_block_text(e: &CidrError) -> (s: String)
    ensures
        s@ == cidr_block_message(*e),
{
    match e {
        CidrError::Wildcard(t) => {
            let mut s = String::from_str("routing rule \"");
            s.append(t.as_str());
            s.append("\" must be a CIDR block (e.g. 10.0.0.0/8); wildcards are not supported");
            s
        },
        CidrError::MissingPrefix(t) => {
            let mut s = String::from_str("routing rule \"");
            s.append(t.as_str());
            s.append("\" must be a CIDR block (e.g. 10.0.0.0/8), not a plain IP address");
            s
        },
        CidrError::Invalid(t) => {
            let mut s = String::from_str("invalid CIDR \"");
            s.append(t.as_str());
            s.append("\"");
            s
        },
        CidrError::NotIpv4(t) => {
            let mut s = String::from_str("routing rule \"");
            s.append(t.as_str());
            s.append("\" must be an IPv4 CIDR block");
            s
        },
    }
}

impl RuleError {
    /// The message a user sees for the error.
    pub open spec fn message(self) -> Seq<char> {
        match self {
            RuleError::DeprecatedNic { cidr, nic } => "routing rule "@ + cidr@
                + " uses deprecated field \"nic\"; use \"rewrite-to\" with a MAC address, NIC name, or gateway IP instead (got \""@
                + nic@ + "\")"@,
            RuleError::MissingRewriteTo(cidr) => "routing rule "@ + cidr@
                + " must set \"rewrite-to\" to a MAC address, NIC name, or gateway IP (see Adapters in the Roust app)."@,
            RuleError::Cidr(e) => cidr_block_message(e),
            RuleError::EmptyRewriteTo => "rewrite-to must not be empty"@,
            RuleError::RewriteToRequired => "rewrite-to must be a MAC address, NIC name, or gateway IP"@,
            RuleError::DuplicateCidr { cidr, existing } => "duplicate CIDR \""@ + cidr@
                + "\" (same network as \""@ + existing@ + "\")"@,
            RuleError::OverlappingCidr { cidr, existing } => "overlapping CIDR blocks \""@ + cidr@
                + "\" and \""@ + existing@ + "\""@,
            RuleError::MacNotFound { cidr, mac } => "routing rule "@ + cidr@ + " → MAC "@ + mac@
                + " not found on any local interface"@,
            RuleError::NicNotFound { cidr, nic } => "routing rule "@ + cidr@ + " → NIC name \""@
                + nic@ + "\" not found on any local interface"@,
            RuleError::GatewayNotFound { cidr, gateway } => "routing rule "@ + cidr@
                + " → gateway "@ + gateway@
                + " is not a default gateway on any local interface"@,
            RuleError::ImportUnreadable(detail) => "JSON import must be [\"cidr\", ...] or [{\"cidr\":\"...\",\"rewrite-to\":\"...\"}]: "@
                + detail@,
        }
    }

    /// The message a user sees for the error.
    pub fn to_string(&self) -> (s: String)
        ensures
            s@ == self.message(),
    {
        match self {
            RuleError::DeprecatedNic { cidr, nic } => {
                let mut s = String::from_str("routing rule ");
                s.append(cidr.as_str());
                s.append(
                    " uses deprecated field \"nic\"; use \"rewrite-to\" with a MAC address, NIC name, or gateway IP instead (got \"",
                );
                s.append(nic.as_str());
                s.append("\")");
                s
            },
            RuleError::MissingRewriteTo(cidr) => {
                let mut s = String::from_str("routing rule ");
                s.append(cidr.as_str());
                s.append(
                    " must set \"rewrite-to\" to a MAC address, NIC name, or gateway IP (see Adapters in the Roust app).",
                );
                s
            },
            RuleError::Cidr(e) => cidr_block_text(e),
            RuleError::EmptyRewriteTo => String::from_str("rewrite-to must not be empty"),
            RuleError::RewriteToRequired => String::from_str(
                "rewrite-to must be a MAC address, NIC name, or gateway IP",
            ),
            RuleError::DuplicateCidr { cidr, existing } => {
                let mut s = String::from_str("duplicate CIDR \"");
                s.append(cidr.as_str());
                s.append("\" (same network as \"");
                s.append(existing.as_str());
                s.append("\")");
                s
            },
            RuleError::OverlappingCidr { cidr, existing } => {
                let mut s = String::from_str("overlapping CIDR blocks \"");
                s.append(cidr.as_str());
                s.append("\" and \"");
                s.append(existing.as_str());
                s.append("\"");
                s
            },
            RuleError::MacNotFound { cidr, mac } => {
                let mut s = String::from_str("routing rule ");
                s.append(cidr.as_str());
                s.append(" → MAC ");
                s.append(mac.as_str());
                s.append(" not found on any local interface");
                s
            },
            RuleError::NicNotFound { cidr, nic } => {
                let mut s = String::from_str("routing rule ");
                s.append(cidr.as_str());
                s.append(" → NIC name \"");
                s.append(nic.as_str());
                s.append("\" not found on any local interface");
                s
            },
            RuleError::GatewayNotFound { cidr, gateway } => {
                let mut s = String::from_str("routing rule ");
                s.append(cidr.as_str());
                s.append(" → gateway ");
                s.append(gateway.as_str());
                s.append(" is not a default gateway on any local interface");
                s
            },
            RuleError::ImportUnreadable(detail) => {
                let mut s = String::from_str(
                    "JSON import must be [\"cidr\", ...] or [{\"cidr\":\"...\",\"rewrite-to\":\"...\"}]: ",
                );
                s.append(detail.as_str());
                s
            },
        }
    }
}

/// What `classify_rewrite_target` answers for a value: blank is refused;
/// otherwise an IPv4 address is a gateway, a MAC-shaped value a MAC, and
/// anything else a NIC name.
pub open spec fn classify_matches(r: Result<RewriteTargetKind, RuleError>, v: Seq<char>) -> bool {
    let t = trim(v);
    if t.len() == 0 {
        r == Err::<RewriteTargetKind, RuleError>(RuleError::EmptyRewriteTo)
    } else if ipv4_parse(t) is Some {
        r matches Ok(RewriteTargetKind::Gateway(g)) && g@ == t
    } else if mac_like(t) {
        r matches Ok(RewriteTargetKind::Mac(m)) && m@ == mac_normal(t)
    } else {
        r matches Ok(RewriteTargetKind::Nic(n)) && n@ == t
    }
}

/// Decides whether `rewrite-to` names a gateway, a MAC or a NIC (in that
/// order of priority).
pub fn classify_rewrite_target(value: &str) -> (r: Result<RewriteTargetKind, RuleError>)
    ensures
        classify_matches(r, value@),
{
    let t = trimmed(value);
    if t.as_str().unicode_len() == 0 {
        return Err(RuleError::EmptyRewriteTo);
    }
    if parse_ipv4(t.as_str()).is_some() {
        return Ok(RewriteTargetKind::Gateway(t));
    }
    if is_mac_address(t.as_str()) {
        return Ok(RewriteTargetKind::Mac(normalize_mac(t.as_str())));
    }
    Ok(RewriteTargetKind::Nic(t))
}

/// Reads a rule's CIDR text as an IPv4 block (`validate_cidr`).
pub fn validate_cidr(cidr: &str) -> (r: Result<Ipv4Net, RuleError>)
    ensures
        match r {
            Ok(net) => cidr_result_matches(Ok(net), cidr@) && net.wf(),
            Err(RuleError::Cidr(e)) => cidr_result_matches(Err(e), cidr@),
            Err(_) => false,
        },
{
    match parse_cidr(cidr) {
        Ok(net) => Ok(net),
        Err(e) => Err(RuleError::Cidr(e)),
    }
}

/// The block a CIDR text denotes (meaningful when it is accepted).
pub open spec fn block_of(v: Seq<char>) -> Ipv4Net {
    match cidr_verdict(v) {
        CidrVerdict::Accepted(n) => n,
        _ => Ipv4Net { addr: 0, prefix: 0 },
    }
}

pub open spec fn block_accepted(v: Seq<char>) -> bool {
    cidr_verdict(v) is Accepted && block_of(v).wf()
}

/// Every rule's block is accepted, and no two blocks overlap: the invariant
/// of a rule list.
pub open spec fn blocks_valid(rules: Seq<RoutingRule>) -> bool {
    &&& forall|i: int| 0 <= i < rules.len() ==> block_accepted(#[trigger] rules[i].cidr@)
    &&& forall|i: int, j: int|
        #![trigger rules[i], rules[j]]
        0 <= j < i < rules.len() ==> !block_of(rules[i].cidr@).overlaps(block_of(rules[j].cidr@))
}

/// A new block `v` is clear of the blocks of `rules[..upto]`.
pub open spec fn block_clear(v: Seq<char>, rules: Seq<RoutingRule>, upto: int) -> bool {
    forall|k: int|
        0 <= k < upto && k < rules.len() ==> block_accepted(#[trigger] rules[k].cidr@)
            && !block_of(v).overlaps(block_of(rules[k].cidr@))
}

/// What `validate_new_rule_cidr` answers for a CIDR text `v` against `rules`:
/// `Ok` exactly when `v` is accepted and clear of every rule, else the first
/// failure in rule order.
pub open spec fn new_rule_result_matches(
    r: Result<(), RuleError>,
    v: Seq<char>,
    rules: Seq<RoutingRule>,
) -> bool {
    &&& r is Ok <==> (block_accepted(v) && block_clear(v, rules, rules.len() as int))
    &&& r matches Err(RuleError::Cidr(c)) ==> ((!block_accepted(v) && cidr_result_matches(
        Err(c),
        v,
    )) || (block_accepted(v) && exists|j: int|
        0 <= j < rules.len() && block_clear(v, rules, j) && !block_accepted(
            #[trigger] rules[j].cidr@,
        ) && cidr_result_matches(Err(c), rules[j].cidr@)))
    &&& r matches Err(RuleError::DuplicateCidr { cidr, existing }) ==> (cidr@ == v
        && block_accepted(v) && exists|j: int|
        0 <= j < rules.len() && block_clear(v, rules, j) && block_accepted(
            #[trigger] rules[j].cidr@,
        ) && existing@ == rules[j].cidr@ && block_of(v).same_network(block_of(rules[j].cidr@)))
    &&& r matches Err(RuleError::OverlappingCidr { cidr, existing }) ==> (cidr@ == v
        && block_accepted(v) && exists|j: int|
        0 <= j < rules.len() && block_clear(v, rules, j) && block_accepted(
            #[trigger] rules[j].cidr@,
        ) && existing@ == rules[j].cidr@ && !block_of(v).same_network(block_of(rules[j].cidr@))
            && block_of(v).overlaps(block_of(rules[j].cidr@)))
    &&& r matches Err(e) ==> (e is Cidr || e is DuplicateCidr || e is OverlappingCidr)
}

/// Refuses a CIDR text that is no IPv4 block, or whose block duplicates or
/// overlaps the block of an existing rule.
pub fn validate_new_rule_cidr(cidr: &str, existing: &[RoutingRule]) -> (r: Result<(), RuleError>)
    ensures
        new_rule_result_matches(r, cidr@, existing@),
{
    let net = validate_cidr(cidr)?;
    let mut j: usize = 0;
    while j < existing.len()
        invariant
            j <= existing@.len(),
            block_accepted(cidr@),
            net == block_of(cidr@),
            net.wf(),
            block_clear(cidr@, existing@, j as int),
        decreases existing@.len() - j,
    {
        let rule = &existing[j];
        let other = match validate_cidr(rule.cidr.as_str()) {
            Ok(o) => o,
            Err(e) => {
                assert(!block_accepted(existing@[j as int].cidr@));
                return Err(e);
            },
        };
        if net.is_same_network(&other) {
            proof {
                lemma_same_network_overlaps(net, other);
            }
            return Err(
                RuleError::DuplicateCidr {
                    cidr: String::from_str(cidr),
                    existing: rule.cidr.clone(),
                },
            );
        }
        if net.overlaps_with(&other) {
            return Err(
                RuleError::OverlappingCidr {
                    cidr: String::from_str(cidr),
                    existing: rule.cidr.clone(),
                },
            );
        }
        j = j + 1;
    }
    Ok(())
}

/// Rule `i`'s block is clear of the blocks of `rules[..upto]`.
pub open spec fn block_clear_of_earlier(rules: Seq<RoutingRule>, i: int, upto: int) -> bool {
    forall|k: int|
        0 <= k < upto ==> !block_of(rules[i].cidr@).overlaps(block_of(#[trigger] rules[k].cidr@))
}

/// What `validate_rules_cidrs` answers: `Ok` exactly when the blocks are
/// valid, else the first failure in rule order.
pub open spec fn blocks_scan_result_matches(r: Result<(), RuleError>, rules: Seq<RoutingRule>) -> bool {
    &&& r is Ok <==> blocks_valid(rules)
    &&& r matches Err(RuleError::Cidr(c)) ==> exists|i: int|
        0 <= i < rules.len() && blocks_valid(rules.subrange(0, i)) && !block_accepted(
            #[trigger] rules[i].cidr@,
        ) && cidr_result_matches(Err(c), rules[i].cidr@)
    &&& r matches Err(RuleError::DuplicateCidr { cidr, existing }) ==> exists|i: int, j: int|
        #![trigger rules[i], rules[j]]
        0 <= j < i < rules.len() && blocks_valid(rules.subrange(0, i)) && block_accepted(
            rules[i].cidr@,
        ) && block_clear_of_earlier(rules, i, j) && cidr@ == rules[i].cidr@ && existing@
            == rules[j].cidr@ && block_of(rules[i].cidr@).same_network(block_of(rules[j].cidr@))
    &&& r matches Err(RuleError::OverlappingCidr { cidr, existing }) ==> exists|i: int, j: int|
        #![trigger rules[i], rules[j]]
        0 <= j < i < rules.len() && blocks_valid(rules.subrange(0, i)) && block_accepted(
            rules[i].cidr@,
        ) && block_clear_of_earlier(rules, i, j) && cidr@ == rules[i].cidr@ && existing@
            == rules[j].cidr@ && !block_of(rules[i].cidr@).same_network(
            block_of(rules[j].cidr@),
        ) && block_of(rules[i].cidr@).overlaps(block_of(rules[j].cidr@))
    &&& r matches Err(e) ==> (e is Cidr || e is DuplicateCidr || e is OverlappingCidr)
}

/// Refuses duplicate or overlapping blocks in a rule list
/// (`validate_rules_cidrs`).
pub fn validate_rules_cidrs(rules: &[RoutingRule]) -> (r: Result<(), RuleError>)
    ensures
        blocks_scan_result_matches(r, rules@),
{
    let mut nets: Vec<Ipv4Net> = Vec::new();
    let mut i: usize = 0;
    assert(rules@.subrange(0, 0) =~= Seq::<RoutingRule>::empty());
    while i < rules.len()
        invariant
            i <= rules@.len(),
            nets@.len() == i,
            blocks_valid(rules@.subrange(0, i as int)),
            forall|k: int|
                0 <= k < i ==> nets@[k] == block_of(#[trigger] rules@[k].cidr@) && nets@[k].wf(),
        decreases rules@.len() - i,
    {
        let rule = &rules[i];
        let ghost q = rules@.subrange(0, i as int);
        assert forall|k: int| 0 <= k < i implies block_accepted(#[trigger] rules@[k].cidr@) by {
            assert(q[k] == rules@[k]);
        }
        let net = match validate_cidr(rule.cidr.as_str()) {
            Ok(n) => n,
            Err(e) => {
                return Err(e);
            },
        };
        let mut j: usize = 0;
        while j < i
            invariant
                i < rules@.len(),
                j <= i,
                nets@.len() == i,
                *rule == rules@[i as int],
                net == block_of(rules@[i as int].cidr@),
                net.wf(),
                block_accepted(rules@[i as int].cidr@),
                blocks_valid(rules@.subrange(0, i as int)),
                forall|k: int|
                    0 <= k < i ==> nets@[k] == block_of(#[trigger] rules@[k].cidr@)
                        && nets@[k].wf(),
                block_clear_of_earlier(rules@, i as int, j as int),
            decreases i - j,
        {
            let other_net = nets[j];
            if net.is_same_network(&other_net) {
                proof {
                    lemma_same_network_overlaps(net, other_net);
                }
                let cidr = rule.cidr.clone();
                let existing = rules[j].cidr.clone();
                assert(rules@[j as int] == rules@[j as int]);
                return Err(RuleError::DuplicateCidr { cidr, existing });
            }
            if net.overlaps_with(&other_net) {
                let cidr = rule.cidr.clone();
                let existing = rules[j].cidr.clone();
                assert(rules@[j as int] == rules@[j as int]);
                return Err(RuleError::OverlappingCidr { cidr, existing });
            }
            j = j + 1;
        }
        nets.push(net);
        proof {
            let p = rules@.subrange(0, i + 1);
            assert forall|a: int| 0 <= a < p.len() implies block_accepted(#[trigger] p[a].cidr@) by {
                assert(p[a] == rules@[a]);
            }
            assert forall|a: int, b: int|
                #![trigger p[a], p[b]]
                0 <= b < a < p.len() implies !block_of(p[a].cidr@).overlaps(block_of(p[b].cidr@)) by {
                if a < i {
                    assert(p[a] == q[a]);
                    assert(p[b] == q[b]);
                } else {
                    assert(p[b] == rules@[b]);
                }
            }
        }
        i = i + 1;
    }
    assert(rules@.subrange(0, rules@.len() as int) =~= rules@);
    Ok(())
}


/// One rule as read from `routes.json`, with the earlier field names kept
/// for loading.
#[derive(Clone, Debug)]
pub struct RoutingRuleInput {
    pub cidr: String,
    /// `rewrite-to` (or `rewrite_to`).
    pub rewrite_to: Option<String>,
    /// `route-to-mac-address`.
    pub mac: Option<String>,
    /// `route-to-nic-name`.
    pub nic: Option<String>,
    /// `route-to-default-gateway` (or `gateway`).
    pub gateway: Option<String>,
    /// The retired `nic` field.
    pub legacy_nic: Option<String>,
}

/// The rewrite target an input names: a non-blank `rewrite-to`, else the
/// first non-empty earlier field (MAC, NIC, gateway), trimmed.
pub open spec fn chosen_rewrite(input: RoutingRuleInput) -> Option<Seq<char>> {
    if input.rewrite_to matches Some(v) && trim(v@).len() > 0 {
        Some(trim(input.rewrite_to->0@))
    } else if input.mac matches Some(v) && v@.len() > 0 {
        Some(trim(input.mac->0@))
    } else if input.nic matches Some(v) && v@.len() > 0 {
        Some(trim(input.nic->0@))
    } else if input.gateway matches Some(v) && v@.len() > 0 {
        Some(trim(input.gateway->0@))
    } else {
        None
    }
}

/// An input becomes a rule: no retired field, a target, an IPv4 block.
pub open spec fn input_ok(input: RoutingRuleInput) -> bool {
    input.legacy_nic is None && chosen_rewrite(input) is Some && block_accepted(input.cidr@)
}

/// What `into_rule` answers for an input.
pub open spec fn into_rule_matches(r: Result<RoutingRule, RuleError>, input: RoutingRuleInput) -> bool {
    if input.legacy_nic is Some {
        r matches Err(RuleError::DeprecatedNic { cidr, nic }) && cidr@ == input.cidr@ && nic@
            == input.legacy_nic->0@
    } else if chosen_rewrite(input) is None {
        r matches Err(RuleError::MissingRewriteTo(c)) && c@ == input.cidr@
    } else if block_accepted(input.cidr@) {
        r matches Ok(rule) && rule.cidr@ == input.cidr@ && rule.rewrite_to@ == chosen_rewrite(
            input,
        )->0
    } else {
        r matches Err(RuleError::Cidr(e)) && cidr_result_matches(Err(e), input.cidr@)
    }
}

fn trimmed_nonblank(v: &Option<String>) -> (r: Option<String>)
    ensures
        r matches Some(t) ==> v matches Some(x) && t@ == trim(x@) && t@.len() > 0,
        r is None ==> !(v matches Some(x) && trim(x@).len() > 0),
{
    match v {
        Some(x) => {
            let t = trimmed(x.as_str());
            if t.as_str().unicode_len() > 0 {
                Some(t)
            } else {
                None
            }
        },
        None => None,
    }
}

fn trimmed_nonempty(v: &Option<String>) -> (r: Option<String>)
    ensures
        r matches Some(t) ==> v matches Some(x) && t@ == trim(x@) && x@.len() > 0,
        r is None ==> !(v matches Some(x) && x@.len() > 0),
{
    match v {
        Some(x) => {
            if x.as_str().unicode_len() > 0 {
                Some(trimmed(x.as_str()))
            } else {
                None
            }
        },
        None => None,
    }
}

impl RoutingRuleInput {
    /// Turns an input into a rule: refuses the retired `nic` field, picks the
    /// target, then checks the block.
    pub fn into_rule(self) -> (r: Result<RoutingRule, RuleError>)
        ensures
            into_rule_matches(r, self),
            r is Ok <==> input_ok(self),
    {
        if let Some(n) = &self.legacy_nic {
            return Err(RuleError::DeprecatedNic { cidr: self.cidr.clone(), nic: n.clone() });
        }
        let chosen = match trimmed_nonblank(&self.rewrite_to) {
            Some(t) => Some(t),
            None => match trimmed_nonempty(&self.mac) {
                Some(t) => Some(t),
                None => match trimmed_nonempty(&self.nic) {
                    Some(t) => Some(t),
                    None => trimmed_nonempty(&self.gateway),
                },
            },
        };
        let rewrite_to = match chosen {
            Some(t) => t,
            None => {
                return Err(RuleError::MissingRewriteTo(self.cidr.clone()));
            },
        };
        validate_cidr(self.cidr.as_str())?;
        Ok(RoutingRule { cidr: self.cidr, rewrite_to })
    }
}

/// `rs` holds the rules that `inputs` become, in order.
pub open spec fn rules_from_inputs(rs: Seq<RoutingRule>, inputs: Seq<RoutingRuleInput>) -> bool {
    &&& rs.len() == inputs.len()
    &&& forall|i: int|
        0 <= i < rs.len() ==> (#[trigger] rs[i]).cidr@ == inputs[i].cidr@ && rs[i].rewrite_to@
            == chosen_rewrite(inputs[i])->0
}

/// The blocks of `inputs` are accepted and pairwise clear.
pub open spec fn input_blocks_valid(inputs: Seq<RoutingRuleInput>) -> bool {
    &&& forall|i: int| 0 <= i < inputs.len() ==> block_accepted(#[trigger] inputs[i].cidr@)
    &&& forall|i: int, j: int|
        #![trigger inputs[i], inputs[j]]
        0 <= j < i < inputs.len() ==> !block_of(inputs[i].cidr@).overlaps(
            block_of(inputs[j].cidr@),
        )
}

/// The in-memory rule list of `routes.json` in its earlier format.
pub struct Config {
    pub rules: Vec<RoutingRule>,
}

impl Config {
    pub open spec fn valid(self) -> bool {
        blocks_valid(self.rules@)
    }

    pub fn new() -> (c: Config)
        ensures
            c.rules@ == Seq::<RoutingRule>::empty(),
            c.valid(),
    {
        Config { rules: Vec::new() }
    }

    /// Builds the configuration from the inputs read out of `routes.json`:
    /// each input becomes a rule in order, then the blocks are checked
    /// together.
    pub fn from_inputs(inputs: Vec<RoutingRuleInput>) -> (r: Result<Config, RuleError>)
        ensures
            r is Ok <==> ((forall|i: int| 0 <= i < inputs@.len() ==> input_ok(#[trigger] inputs@[i]))
                && input_blocks_valid(inputs@)),
            r matches Ok(c) ==> rules_from_inputs(c.rules@, inputs@) && c.valid(),
            r matches Err(e) ==> (exists|i: int|
                0 <= i < inputs@.len() && !input_ok(#[trigger] inputs@[i]) && (forall|k: int|
                    0 <= k < i ==> input_ok(#[trigger] inputs@[k])) && into_rule_matches(
                    Err(e),
                    inputs@[i],
                )) || ((forall|i: int| 0 <= i < inputs@.len() ==> input_ok(#[trigger] inputs@[i]))
                && exists|rs: Seq<RoutingRule>|
                rules_from_inputs(rs, inputs@) && blocks_scan_result_matches(Err(e), rs)),
    {
        let mut rules: Vec<RoutingRule> = Vec::new();
        let mut rest = inputs;
        let ghost all = rest@;
        let n = rest.len();
        let mut i: usize = 0;
        while rest.len() > 0
            invariant
                all == inputs@,
                all.len() == n,
                i <= all.len(),
                rest@ == all.subrange(i as int, all.len() as int),
                forall|k: int| 0 <= k < i ==> input_ok(#[trigger] all[k]),
                rules_from_inputs(rules@, all.subrange(0, i as int)),
            decreases rest@.len(),
        {
            let input = rest.remove(0);
            assert(input == all[i as int]);
            let rule = match input.into_rule() {
                Ok(rule) => rule,
                Err(e) => {
                    assert(!input_ok(all[i as int]));
                    assert(into_rule_matches(Err(e), all[i as int]));
                    return Err(e);
                },
            };
            rules.push(rule);
            proof {
                let p = all.subrange(0, i + 1);
                assert forall|k: int| 0 <= k < rules@.len() implies (#[trigger] rules@[k]).cidr@
                    == p[k].cidr@ && rules@[k].rewrite_to@ == chosen_rewrite(p[k])->0 by {
                    if k < i {
                        assert(p[k] == all.subrange(0, i as int)[k]);
                    }
                }
            }
            i = i + 1;
        }
        assert(all.subrange(0, i as int) =~= all);
        proof {
            let rs = rules@;
            assert forall|a: int| 0 <= a < rs.len() implies #[trigger] rs[a].cidr@ == all[a].cidr@ by {}
            assert(blocks_valid(rs) <==> input_blocks_valid(all)) by {
                if blocks_valid(rs) {
                    assert forall|a: int| 0 <= a < all.len() implies block_accepted(
                        #[trigger] all[a].cidr@,
                    ) by {
                        assert(block_accepted(rs[a].cidr@));
                    }
                    assert forall|a: int, b: int|
                        #![trigger all[a], all[b]]
                        0 <= b < a < all.len() implies !block_of(all[a].cidr@).overlaps(
                        block_of(all[b].cidr@),
                    ) by {
                        assert(!block_of(rs[a].cidr@).overlaps(block_of(rs[b].cidr@)));
                    }
                }
                if input_blocks_valid(all) {
                    assert forall|a: int| 0 <= a < rs.len() implies block_accepted(
                        #[trigger] rs[a].cidr@,
                    ) by {
                        assert(block_accepted(all[a].cidr@));
                    }
                    assert forall|a: int, b: int|
                        #![trigger rs[a], rs[b]]
                        0 <= b < a < rs.len() implies !block_of(rs[a].cidr@).overlaps(
                        block_of(rs[b].cidr@),
                    ) by {
                        assert(!block_of(all[a].cidr@).overlaps(block_of(all[b].cidr@)));
                    }
                }
            }
        }
        validate_rules_cidrs(rules.as_slice())?;
        Ok(Config { rules })
    }
}


fn copy_rule(r: &RoutingRule) -> (c: RoutingRule)
    ensures
        c == *r,
{
    RoutingRule { cidr: r.cidr.clone(), rewrite_to: r.rewrite_to.clone() }
}

/// `rs` holds one rule per CIDR text of `cs`, in order, each with an empty
/// `rewrite-to`.
pub open spec fn rules_from_cidrs(rs: Seq<RoutingRule>, cs: Seq<Seq<char>>) -> bool {
    &&& rs.len() == cs.len()
    &&& forall|i: int|
        0 <= i < rs.len() ==> (#[trigger] rs[i]).cidr@ == cs[i] && rs[i].rewrite_to@
            == Seq::<char>::empty()
}

/// What checking imported rules answers: every block is read first, in
/// order; then the blocks are checked together.
pub open spec fn import_checked(r: Result<Vec<RoutingRule>, RuleError>, rules: Seq<RoutingRule>) -> bool {
    &&& r is Ok <==> blocks_valid(rules)
    &&& r matches Ok(v) ==> v@ == rules
    &&& r matches Err(e) ==> (exists|i: int|
        0 <= i < rules.len() && !block_accepted(#[trigger] rules[i].cidr@) && (forall|k: int|
            0 <= k < i ==> block_accepted(#[trigger] rules[k].cidr@)) && (e matches RuleError::Cidr(
            c,
        ) && cidr_result_matches(Err(c), rules[i].cidr@))) || ((forall|k: int|
        0 <= k < rules.len() ==> block_accepted(#[trigger] rules[k].cidr@))
        && blocks_scan_result_matches(Err(e), rules))
}

fn check_blocks(rules: Vec<RoutingRule>) -> (r: Result<Vec<RoutingRule>, RuleError>)
    ensures
        import_checked(r, rules@),
{
    let mut i: usize = 0;
    while i < rules.len()
        invariant
            i <= rules@.len(),
            forall|k: int| 0 <= k < i ==> block_accepted(#[trigger] rules@[k].cidr@),
        decreases rules@.len() - i,
    {
        match validate_cidr(rules[i].cidr.as_str()) {
            Ok(_) => {},
            Err(e) => {
                assert(!block_accepted(rules@[i as int].cidr@));
                return Err(e);
            },
        }
        i = i + 1;
    }
    validate_rules_cidrs(rules.as_slice())?;
    Ok(rules)
}

/// The non-blank lines of an import text, trimmed.
pub open spec fn import_lines(contents: Seq<char>) -> Seq<Seq<char>> {
    lines_of(contents).map_values(|l: Seq<char>| trim(l)).filter(|l: Seq<char>| l.len() > 0)
}

/// What serde read from a `.json` import file.
pub enum ImportedJson {
    /// An array of rules.
    Rules(Vec<RoutingRule>),
    /// An array of CIDR texts.
    Cidrs(Vec<String>),
    /// Neither; holds the reader's explanation.
    Unreadable(String),
}

/// The lines of `contents`, trimmed, blank ones left out.
fn nonblank_lines(contents: &str) -> (r: Vec<String>)
    ensures
        r@.len() == import_lines(contents@).len(),
        forall|k: int| 0 <= k < r@.len() ==> #[trigger] r@[k]@ == import_lines(contents@)[k],
{
    let v = to_chars(contents);
    let ls = lines(v.as_slice());
    let ghost all = lines_of(contents@).map_values(|l: Seq<char>| trim(l));
    let ghost pred = |l: Seq<char>| l.len() > 0;
    let mut r: Vec<String> = Vec::new();
    let mut i: usize = 0;
    assert(all.subrange(0, 0).filter(pred) =~= Seq::<Seq<char>>::empty()) by {
        reveal(Seq::filter);
    }
    while i < ls.len()
        invariant
            i <= ls@.len(),
            all.len() == lines_of(contents@).len(),
            forall|k: int| 0 <= k < all.len() ==> #[trigger] all[k] == trim(lines_of(contents@)[k]),
            forall|l: Seq<char>| #[trigger] pred(l) == (l.len() > 0),
            ls@.len() == all.len(),
            v@ == contents@,
            forall|k: int| 0 <= k < ls@.len() ==> #[trigger] ls@[k]@ == lines_of(v@)[k],
            r@.map_values(|x: String| x@) == all.subrange(0, i as int).filter(pred),
        decreases ls@.len() - i,
    {
        let line = &ls[i];
        let hi = trim_end_index(line.as_slice());
        let lo = trim_start_index(line.as_slice(), hi);
        proof {
            crate::text::lemma_trim_end_shape(line@);
        }
        let ghost before = r@.map_values(|x: String| x@);
        proof {
            assert(ls@[i as int]@ == lines_of(contents@)[i as int]);
            assert(all[i as int] == trim(lines_of(contents@)[i as int]));
            assert(trim(line@) == line@.subrange(lo as int, hi as int));
            assert(all.subrange(0, i + 1) =~= all.subrange(0, i as int).push(all[i as int]));
            lemma_filter_push(all.subrange(0, i as int), all[i as int], pred);
        }
        if lo < hi {
            let t = string_of_range(line.as_slice(), lo, hi);
            r.push(t);
            assert(r@.map_values(|x: String| x@) =~= before.push(all[i as int]));
        } else {
            assert(all[i as int].len() == 0);
        }
        i = i + 1;
    }
    assert(all.subrange(0, all.len() as int) =~= all);
    assert(r@.map_values(|x: String| x@) == import_lines(contents@));
    proof {
        assert forall|k: int| 0 <= k < r@.len() implies #[trigger] r@[k]@ == import_lines(
            contents@,
        )[k] by {
            assert(r@.map_values(|x: String| x@)[k] == r@[k]@);
        }
    }
    r
}

fn rules_with_empty_targets(cidrs: Vec<String>) -> (r: Vec<RoutingRule>)
    ensures
        rules_from_cidrs(r@, cidrs@.map_values(|c: String| c@)),
{
    let mut r: Vec<RoutingRule> = Vec::new();
    let mut rest = cidrs;
    let ghost all = rest@;
    let n = rest.len();
    let mut i: usize = 0;
    while rest.len() > 0
        invariant
            all == cidrs@,
            all.len() == n,
            i <= n,
            rest@ == all.subrange(i as int, n as int),
            rules_from_cidrs(r@, all.subrange(0, i as int).map_values(|c: String| c@)),
        decreases rest@.len(),
    {
        let c = rest.remove(0);
        assert(c == all[i as int]);
        r.push(RoutingRule { cidr: c, rewrite_to: String::new() });
        proof {
            let p = all.subrange(0, i + 1).map_values(|c: String| c@);
            assert forall|k: int| 0 <= k < r@.len() implies (#[trigger] r@[k]).cidr@ == p[k]
                && r@[k].rewrite_to@ == Seq::<char>::empty() by {
                if k < i {
                    assert(p[k] == all.subrange(0, i as int).map_values(|c: String| c@)[k]);
                }
            }
        }
        i = i + 1;
    }
    assert(all.subrange(0, n as int) =~= all);
    r
}

impl Config {
    /// Reads rules from an import file. A `.json` file holds rules or CIDR
    /// texts (`json` is what serde read from it); any other file holds one
    /// CIDR text per line. Imported CIDR texts get an empty `rewrite-to`.
    pub fn parse_import_file(contents: &str, path: &str, json: ImportedJson) -> (r: Result<
        Vec<RoutingRule>,
        RuleError,
    >)
        ensures
            has_json_extension(path@) ==> match json {
                ImportedJson::Rules(rs) => import_checked(r, rs@),
                ImportedJson::Cidrs(cs) => exists|rs: Seq<RoutingRule>|
                    rules_from_cidrs(rs, cs@.map_values(|c: String| c@)) && import_checked(r, rs),
                ImportedJson::Unreadable(d) => r matches Err(RuleError::ImportUnreadable(x)) && x@
                    == d@,
            },
            !has_json_extension(path@) ==> exists|rs: Seq<RoutingRule>|
                rules_from_cidrs(rs, import_lines(contents@)) && import_checked(r, rs),
    {
        if is_json_path(path) {
            match json {
                ImportedJson::Rules(rules) => check_blocks(rules),
                ImportedJson::Cidrs(cidrs) => {
                    let rules = rules_with_empty_targets(cidrs);
                    check_blocks(rules)
                },
                ImportedJson::Unreadable(detail) => Err(RuleError::ImportUnreadable(detail)),
            }
        } else {
            let texts = nonblank_lines(contents);
            let rules = rules_with_empty_targets(texts);
            proof {
                assert(texts@.map_values(|c: String| c@) =~= import_lines(contents@));
            }
            check_blocks(rules)
        }
    }

    /// Appends a rule after checking its block, its target, and the block
    /// against the existing ones; `rewrite_to` is stored trimmed.
    pub fn add_rule(&mut self, cidr: String, rewrite_to: String) -> (r: Result<(), RuleError>)
        ensures
            r is Ok <==> (block_accepted(cidr@) && trim(rewrite_to@).len() > 0 && block_clear(
                cidr@,
                old(self).rules@,
                old(self).rules@.len() as int,
            )),
            !block_accepted(cidr@) ==> (r matches Err(RuleError::Cidr(e)) && cidr_result_matches(
                Err(e),
                cidr@,
            )),
            block_accepted(cidr@) && trim(rewrite_to@).len() == 0 ==> r == Err::<(), RuleError>(
                RuleError::RewriteToRequired,
            ),
            block_accepted(cidr@) && trim(rewrite_to@).len() > 0 ==> new_rule_result_matches(
                r,
                cidr@,
                old(self).rules@,
            ),
            r is Ok ==> final(self).rules@.len() == old(self).rules@.len() + 1,
            r is Ok ==> final(self).rules@.drop_last() == old(self).rules@,
            r is Ok ==> final(self).rules@.last().cidr@ == cidr@,
            r is Ok ==> final(self).rules@.last().rewrite_to@ == trim(rewrite_to@),
            r is Err ==> final(self).rules@ == old(self).rules@,
            old(self).valid() ==> final(self).valid(),
    {
        validate_cidr(cidr.as_str())?;
        let rw = trimmed(rewrite_to.as_str());
        if rw.as_str().unicode_len() == 0 {
            return Err(RuleError::RewriteToRequired);
        }
        proof {
            crate::text::lemma_trim_idempotent(rewrite_to@);
        }
        classify_rewrite_target(rw.as_str())?;
        validate_new_rule_cidr(cidr.as_str(), self.rules.as_slice())?;
        let ghost before = self.rules@;
        self.rules.push(RoutingRule { cidr, rewrite_to: rw });
        proof {
            assert(self.rules@.drop_last() =~= before);
            let p = self.rules@;
            if blocks_valid(before) {
                assert forall|a: int| 0 <= a < p.len() implies block_accepted(#[trigger] p[a].cidr@) by {
                    if a < before.len() {
                        assert(p[a] == before[a]);
                    }
                }
                assert forall|a: int, b: int|
                    #![trigger p[a], p[b]]
                    0 <= b < a < p.len() implies !block_of(p[a].cidr@).overlaps(
                    block_of(p[b].cidr@),
                ) by {
                    assert(p[b] == before[b]);
                    if a < before.len() {
                        assert(p[a] == before[a]);
                    }
                }
            }
        }
        Ok(())
    }

    /// Removes every rule whose CIDR text is exactly `cidr`; true when one
    /// was removed.
    pub fn remove_rule(&mut self, cidr: &str) -> (b: bool)
        ensures
            final(self).rules@ == old(self).rules@.filter(|x: RoutingRule| x.cidr@ != cidr@),
            b == (final(self).rules@.len() < old(self).rules@.len()),
            old(self).valid() ==> final(self).valid(),
    {
        let target = String::from_str(cidr);
        let ghost pred = |x: RoutingRule| x.cidr@ != cidr@;
        let ghost orig = self.rules@;
        let mut kept: Vec<RoutingRule> = Vec::new();
        let ghost mut idx: Seq<int> = Seq::empty();
        let mut i: usize = 0;
        assert(orig.subrange(0, 0).filter(pred) =~= Seq::<RoutingRule>::empty()) by {
            reveal(Seq::filter);
        }
        while i < self.rules.len()
            invariant
                orig == self.rules@,
                forall|x: RoutingRule| #[trigger] pred(x) == (x.cidr@ != cidr@),
                i <= orig.len(),
                target@ == cidr@,
                kept@ == orig.subrange(0, i as int).filter(pred),
                idx.len() == kept@.len(),
                forall|k: int|
                    0 <= k < idx.len() ==> 0 <= #[trigger] idx[k] < i && kept@[k] == orig[idx[k]],
                forall|a: int, b: int| 0 <= a < b < idx.len() ==> #[trigger] idx[a] < #[trigger] idx[b],
            decreases orig.len() - i,
        {
            let rule = &self.rules[i];
            proof {
                assert(orig.subrange(0, i + 1) =~= orig.subrange(0, i as int).push(orig[i as int]));
                lemma_filter_push(orig.subrange(0, i as int), orig[i as int], pred);
            }
            if rule.cidr != target {
                kept.push(copy_rule(rule));
                proof {
                    idx = idx.push(i as int);
                }
            }
            i = i + 1;
        }
        assert(orig.subrange(0, orig.len() as int) =~= orig);
        proof {
            orig.lemma_filter_len(pred);
            let p = kept@;
            if blocks_valid(orig) {
                assert forall|a: int| 0 <= a < p.len() implies block_accepted(#[trigger] p[a].cidr@) by {
                    assert(p[a] == orig[idx[a]]);
                }
                assert forall|a: int, b: int|
                    #![trigger p[a], p[b]]
                    0 <= b < a < p.len() implies !block_of(p[a].cidr@).overlaps(
                    block_of(p[b].cidr@),
                ) by {
                    assert(idx[b] < idx[a]);
                    assert(p[a] == orig[idx[a]]);
                    assert(p[b] == orig[idx[b]]);
                    assert(!block_of(orig[idx[a]].cidr@).overlaps(block_of(orig[idx[b]].cidr@)));
                }
            }
        }
        let n = self.rules.len();
        self.rules = kept;
        self.rules.len() < n
    }

    pub fn get_rules(&self) -> (r: &[RoutingRule])
        ensures
            r@ == self.rules@,
    {
        self.rules.as_slice()
    }
}


/// A pre-parsed match pattern: an IPv4 block.
#[derive(Clone, Copy, Debug, PartialEq, Eq, Structural)]
pub enum IpMatch {
    Network(Ipv4Net),
}

/// A rewrite rule with its target resolved to an interface.
#[derive(Clone, Debug)]
pub struct CompiledRule {
    pub cidr_label: String,
    pub gateway: u32,
    pub match_pattern: IpMatch,
    pub if_index: u32,
    /// Primary IPv4 of the target interface.
    pub egress_ipv4: Option<u32>,
}

pub open spec fn ip_match_contains(m: IpMatch, dest: u32) -> bool {
    match m {
        IpMatch::Network(net) => net.contains(dest),
    }
}

/// A rule over a well-formed block holds exactly the addresses from the
/// block's network address to its broadcast address.
pub proof fn lemma_ip_match_meaning(m: IpMatch, dest: u32)
    requires
        m matches IpMatch::Network(net) && net.wf(),
    ensures
        m matches IpMatch::Network(net) ==> (ip_match_contains(m, dest) <==> (net.network() <= dest
            && dest <= net.broadcast())),
{
    let IpMatch::Network(net) = m;
    crate::cidr::lemma_contains_iff_in_range(net, dest);
}

impl CompiledRule {
    /// Whether the rule's block holds `dest`.
    pub fn matches(&self, dest: u32) -> (b: bool)
        ensures
            b == ip_match_contains(self.match_pattern, dest),
    {
        match self.match_pattern {
            IpMatch::Network(net) => net.contains_address(dest),
        }
    }
}

/// The interface a `rewrite-to` value resolves to on this host: a gateway by
/// its address, a MAC by its normalized form, a NIC by its lower-cased name.
pub open spec fn target_entry(
    rw: Seq<char>,
    macs: Map<Seq<char>, MacEntry>,
    nics: Map<Seq<char>, MacEntry>,
    gateways: Map<u32, MacEntry>,
) -> Option<MacEntry> {
    let t = trim(rw);
    if t.len() == 0 {
        None
    } else if ipv4_parse(t) is Some {
        let a = ipv4_parse(t)->0;
        if gateways.contains_key(a) {
            Some(gateways[a])
        } else {
            None
        }
    } else if mac_like(t) {
        if macs.contains_key(mac_normal(t)) {
            Some(macs[mac_normal(t)])
        } else {
            None
        }
    } else if nics.contains_key(lower(t)) {
        Some(nics[lower(t)])
    } else {
        None
    }
}

/// A rule compiles: its block is accepted and its target resolves.
pub open spec fn rewrite_compiles(
    rule: RoutingRule,
    macs: Map<Seq<char>, MacEntry>,
    nics: Map<Seq<char>, MacEntry>,
    gateways: Map<u32, MacEntry>,
) -> bool {
    block_accepted(rule.cidr@) && target_entry(rule.rewrite_to@, macs, nics, gateways) is Some
}

/// The error of a rule that does not compile: its block's, or else its
/// target's.
pub open spec fn rewrite_compile_error_matches(e: RuleError, rule: RoutingRule) -> bool {
    let t = trim(rule.rewrite_to@);
    if !block_accepted(rule.cidr@) {
        e matches RuleError::Cidr(c) && cidr_result_matches(Err(c), rule.cidr@)
    } else if t.len() == 0 {
        e == RuleError::EmptyRewriteTo
    } else if ipv4_parse(t) is Some {
        e matches RuleError::GatewayNotFound { cidr, gateway } && cidr@ == rule.cidr@ && gateway@
            == t
    } else if mac_like(t) {
        e matches RuleError::MacNotFound { cidr, mac } && cidr@ == rule.cidr@ && mac@
            == mac_normal(t)
    } else {
        e matches RuleError::NicNotFound { cidr, nic } && cidr@ == rule.cidr@ && nic@ == t
    }
}

/// A compiled rule is what `rule` compiles to.
pub open spec fn rewrite_compiled_as(
    c: CompiledRule,
    rule: RoutingRule,
    macs: Map<Seq<char>, MacEntry>,
    nics: Map<Seq<char>, MacEntry>,
    gateways: Map<u32, MacEntry>,
) -> bool {
    &&& c.cidr_label@ == rule.cidr@
    &&& c.match_pattern == IpMatch::Network(block_of(rule.cidr@))
    &&& target_entry(rule.rewrite_to@, macs, nics, gateways) matches Some(entry)
        && c.gateway == entry.gateway && c.if_index == entry.if_index && c.egress_ipv4
        == entry.egress_ipv4
}

fn resolve_entry(rule: &RoutingRule, mac_map: &NameTable, nic_map: &NameTable, gw_map: &GatewayTable) -> (r:
    Result<MacEntry, RuleError>)
    requires
        mac_map.wf(),
        nic_map.wf(),
    ensures
        match target_entry(rule.rewrite_to@, mac_map@, nic_map@, gw_map@) {
            Some(entry) => r == Ok::<MacEntry, RuleError>(entry),
            None => r matches Err(e) && (block_accepted(rule.cidr@)
                ==> rewrite_compile_error_matches(e, *rule)),
        },
{
    match classify_rewrite_target(rule.rewrite_to.as_str())? {
        RewriteTargetKind::Mac(mac) => match mac_map.get(mac.as_str()) {
            Some(entry) => Ok(entry),
            None => Err(RuleError::MacNotFound { cidr: rule.cidr.clone(), mac }),
        },
        RewriteTargetKind::Nic(nic) => {
            let key = lower_string(nic.as_str());
            match nic_map.get(key.as_str()) {
                Some(entry) => Ok(entry),
                None => Err(RuleError::NicNotFound { cidr: rule.cidr.clone(), nic }),
            }
        },
        RewriteTargetKind::Gateway(gateway) => {
            let a = match parse_ipv4(gateway.as_str()) {
                Some(a) => a,
                None => {
                    return Err(RuleError::EmptyRewriteTo);
                },
            };
            match gw_map.get(a) {
                Some(entry) => Ok(entry),
                None => Err(RuleError::GatewayNotFound { cidr: rule.cidr.clone(), gateway }),
            }
        },
    }
}

impl Config {
    /// Builds the in-memory routing table from the rules' targets.
    pub fn compile_rules(&self, mac_map: &NameTable, nic_map: &NameTable, gw_map: &GatewayTable) -> (r:
        Result<Vec<CompiledRule>, RuleError>)
        requires
            mac_map.wf(),
            nic_map.wf(),
        ensures
            r is Ok <==> forall|i: int|
                0 <= i < self.rules@.len() ==> rewrite_compiles(
                    #[trigger] self.rules@[i],
                    mac_map@,
                    nic_map@,
                    gw_map@,
                ),
            r matches Ok(c) ==> c@.len() == self.rules@.len() && forall|i: int|
                0 <= i < c@.len() ==> rewrite_compiled_as(
                    #[trigger] c@[i],
                    self.rules@[i],
                    mac_map@,
                    nic_map@,
                    gw_map@,
                ),
            r matches Err(e) ==> exists|i: int|
                0 <= i < self.rules@.len() && !rewrite_compiles(
                    #[trigger] self.rules@[i],
                    mac_map@,
                    nic_map@,
                    gw_map@,
                ) && (forall|k: int|
                    0 <= k < i ==> rewrite_compiles(
                        #[trigger] self.rules@[k],
                        mac_map@,
                        nic_map@,
                        gw_map@,
                    )) && rewrite_compile_error_matches(e, self.rules@[i]),
    {
        let mut compiled: Vec<CompiledRule> = Vec::new();
        let mut i: usize = 0;
        while i < self.rules.len()
            invariant
                mac_map.wf(),
                nic_map.wf(),
                i <= self.rules@.len(),
                compiled@.len() == i,
                forall|k: int|
                    0 <= k < i ==> rewrite_compiles(
                        #[trigger] self.rules@[k],
                        mac_map@,
                        nic_map@,
                        gw_map@,
                    ),
                forall|k: int|
                    0 <= k < i ==> rewrite_compiled_as(
                        #[trigger] compiled@[k],
                        self.rules@[k],
                        mac_map@,
                        nic_map@,
                        gw_map@,
                    ),
            decreases self.rules@.len() - i,
        {
            let rule = &self.rules[i];
            let net = match validate_cidr(rule.cidr.as_str()) {
                Ok(n) => n,
                Err(e) => {
                    assert(!rewrite_compiles(self.rules@[i as int], mac_map@, nic_map@, gw_map@));
                    return Err(e);
                },
            };
            let entry = match resolve_entry(rule, mac_map, nic_map, gw_map) {
                Ok(entry) => entry,
                Err(e) => {
                    assert(!rewrite_compiles(self.rules@[i as int], mac_map@, nic_map@, gw_map@));
                    return Err(e);
                },
            };
            compiled.push(
                CompiledRule {
                    cidr_label: rule.cidr.clone(),
                    gateway: entry.gateway,
                    match_pattern: IpMatch::Network(net),
                    if_index: entry.if_index,
                    egress_ipv4: entry.egress_ipv4,
                },
            );
            i = i + 1;
        }
        Ok(compiled)
    }

    /// The first compiled rule whose block holds `dest`.
    pub fn find_compiled<'a>(compiled: &'a [CompiledRule], dest: u32) -> (r: Option<&'a CompiledRule>)
        ensures
            r is None <==> forall|i: int|
                0 <= i < compiled@.len() ==> !ip_match_contains(
                    (#[trigger] compiled@[i]).match_pattern,
                    dest,
                ),
            r matches Some(x) ==> exists|i: int|
                0 <= i < compiled@.len() && *x == compiled@[i] && ip_match_contains(
                    (#[trigger] compiled@[i]).match_pattern,
                    dest,
                ) && forall|k: int|
                    0 <= k < i ==> !ip_match_contains((#[trigger] compiled@[k]).match_pattern, dest),
    {
        let mut i: usize = 0;
        while i < compiled.len()
            invariant
                i <= compiled@.len(),
                forall|k: int|
                    0 <= k < i ==> !ip_match_contains((#[trigger] compiled@[k]).match_pattern, dest),
            decreases compiled@.len() - i,
        {
            if compiled[i].matches(dest) {
                return Some(&compiled[i]);
            }
            i = i + 1;
        }
        None
    }
}

/// In a valid rule list no address lies in the blocks of two different
/// rules, so the first matching rule is the only one.
pub proof fn lemma_valid_blocks_disjoint(rules: Seq<RoutingRule>, i: int, j: int, ip: u32)
    requires
        blocks_valid(rules),
        0 <= i < rules.len(),
        0 <= j < rules.len(),
        i != j,
    ensures
        !(block_of(rules[i].cidr@).contains(ip) && block_of(rules[j].cidr@).contains(ip)),
{
    let a = block_of(rules[i].cidr@);
    let b = block_of(rules[j].cidr@);
    assert(block_accepted(rules[i].cidr@));
    assert(block_accepted(rules[j].cidr@));
    if j < i {
        assert(!a.overlaps(b));
        lemma_disjoint_blocks_share_no_address(a, b, ip);
    } else {
        assert(!b.overlaps(a));
        lemma_disjoint_blocks_share_no_address(b, a, ip);
    }
}

} // verus!
