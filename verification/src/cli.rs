//! The command line of the service tool: rule edits, rule listing,
//! predictions and service control (arguments read elsewhere).

use vstd::prelude::*;
use crate::config::{DestinationKind, RoutingRule, TargetKind};
use crate::ipv4::ipv4_parse;
use crate::mac::{mac_like, mac_normal};
use crate::rewrite::{classify_rewrite_target, RewriteTargetKind, RuleError};
use crate::text::{has_char, to_chars, trim, trimmed};

verus! {

/// The parsed command line.
#[derive(Clone, Debug)]
pub struct Cli {
    pub command: Option<Commands>,
    /// Path to `routes.json`.
    pub config: Option<String>,
    /// Register the Windows service.
    pub install_service: bool,
    /// Remove the Windows service registration.
    pub uninstall_service: bool,
}

#[derive(Clone, Debug)]
pub enum Commands {
    Add { action: RuleAction },
    Delete { action: RuleAction },
    Edit { action: RuleAction },
    Rule { action: RuleCommands },
    Predict { ip: String },
    Start,
    Stop,
    Restart,
    Status,
}

#[derive(Clone, Debug)]
pub enum RuleAction {
    Rule {
        ip: Option<String>,
        gateway: Option<String>,
        rewrite_to: Option<String>,
        file: Option<String>,
    },
}

#[derive(Clone, Copy, Debug, PartialEq, Eq, Structural)]
pub enum RuleCommands {
    /// List all routing rules.
    List,
}

/// The target kind a rule command's `--ip` names: a CIDR block when it holds
/// a `/`, else a single address.
pub fn rule_target_kind(ip: &str) -> (k: TargetKind)
    ensures
        k == (if ip@.contains('/') {
            TargetKind::Cidr
        } else {
            TargetKind::Ip
        }),
{
    let v = to_chars(ip);
    if has_char(v.as_slice(), '/') {
        TargetKind::Cidr
    } else {
        TargetKind::Ip
    }
}

/// The destination a rule command names: its `--rewrite-to` value read as
/// a gateway address, a MAC or a NIC (in that order), else its `--gateway`
/// as an address; none when neither is given.
pub fn rule_destination(gateway: Option<String>, rewrite_to: Option<String>) -> (r: Result<
    Option<(DestinationKind, String)>,
    RuleError,
>)
    ensures
        match rewrite_to {
            None => match gateway {
                Some(g) => r matches Ok(Some((k, s))) && k == DestinationKind::Ip && s == g,
                None => r matches Ok(None),
            },
            Some(v) => {
                let t = trim(v@);
                if t.len() == 0 {
                    r == Err::<Option<(DestinationKind, String)>, RuleError>(
                        RuleError::EmptyRewriteTo,
                    )
                } else if ipv4_parse(t) is Some {
                    r matches Ok(Some((k, s))) && k == DestinationKind::Ip && s@ == t
                } else if mac_like(t) {
                    r matches Ok(Some((k, s))) && k == DestinationKind::Mac && s@ == mac_normal(t)
                } else {
                    r matches Ok(Some((k, s))) && k == DestinationKind::Nic && s@ == t
                }
            },
        },
{
    match rewrite_to {
        Some(v) => match classify_rewrite_target(v.as_str())? {
            RewriteTargetKind::Mac(m) => Ok(Some((DestinationKind::Mac, m))),
            RewriteTargetKind::Nic(n) => Ok(Some((DestinationKind::Nic, n))),
            RewriteTargetKind::Gateway(g) => Ok(Some((DestinationKind::Ip, g))),
        },
        None => match gateway {
            Some(g) => Ok(Some((DestinationKind::Ip, g))),
            None => Ok(None),
        },
    }
}

/// The first rule whose target value, trimmed, is `value` trimmed.
pub open spec fn first_rule_for(rules: Seq<RoutingRule>, value: Seq<char>, from: int) -> Option<int>
    decreases rules.len() - from,
{
    if from < 0 || from >= rules.len() {
        None
    } else if trim(rules[from].target_value@) == trim(value) {
        Some(from)
    } else {
        first_rule_for(rules, value, from + 1)
    }
}

/// The index of the first rule whose target value (trimmed) is `value`
/// (trimmed), as `delete` and `edit` find it.
pub fn rule_index(rules: &[RoutingRule], value: &str) -> (r: Option<usize>)
    ensures
        match first_rule_for(rules@, value@, 0) {
            Some(i) => r == Some(i as usize),
            None => r is None,
        },
{
    let want = trimmed(value);
    let w = to_chars(want.as_str());
    let mut i: usize = 0;
    while i < rules.len()
        invariant
            i <= rules@.len(),
            w@ == trim(value@),
            first_rule_for(rules@, value@, 0) == first_rule_for(rules@, value@, i as int),
        decreases rules@.len() - i,
    {
        let t = trimmed(rules[i].target_value.as_str());
        let tv = to_chars(t.as_str());
        if crate::text::chars_eq(tv.as_slice(), w.as_slice()) {
            return Some(i);
        }
        i = i + 1;
    }
    None
}

} // verus!
