//! What the management HTTP API answers: service status, and the route list
//! that joins configured rules with routes found in the forwarding table.

use vstd::prelude::*;
use crate::config::RoutingRule;

verus! {

/// The address the API listens on by default.
pub const DEFAULT_BIND: &'static str = "127.0.0.1:8787";

/// Shared state of the API handlers.
#[derive(Clone, Debug)]
pub struct AppState {
    pub config_path: String,
}

/// Answer to `GET /api/status`.
#[derive(Clone, Debug)]
pub struct StatusResponse {
    pub installed: bool,
    pub state: String,
    pub config_path: String,
    pub rule_count: usize,
    pub config_rule_count: usize,
    pub system_rule_count: usize,
    pub version: String,
}

/// Where a listed route comes from.
#[derive(Clone, Copy, Debug, PartialEq, Eq, Structural)]
pub enum RouteSource {
    Config,
    System,
}

/// One listed route: a configured rule (with its index) or a route found
/// in the forwarding table.
#[derive(Clone, Debug)]
pub struct RouteItem {
    pub index: Option<usize>,
    pub rule: RoutingRule,
    pub source: RouteSource,
}

/// The body of an error answer.
#[derive(Clone, Debug)]
pub struct ErrorBody {
    pub error: String,
}

/// How the API server is started.
#[derive(Clone, Debug)]
pub struct ApiOptions {
    pub bind: String,
    pub config_path: Option<String>,
}

impl ApiOptions {
    /// Listens on `127.0.0.1:8787` with the default configuration path.
    pub fn new() -> (o: ApiOptions)
        ensures
            o.bind@ == DEFAULT_BIND@,
            o.config_path is None,
    {
        ApiOptions { bind: String::from_str(DEFAULT_BIND), config_path: None }
    }
}

/// The states of a Windows service.
#[derive(Clone, Copy, Debug, PartialEq, Eq, Structural)]
pub enum ServiceStateKind {
    Stopped,
    StartPending,
    StopPending,
    Running,
    ContinuePending,
    PausePending,
    Paused,
}

/// The name of a service state.
pub open spec fn state_label(s: ServiceStateKind) -> Seq<char> {
    match s {
        ServiceStateKind::Stopped => "Stopped"@,
        ServiceStateKind::StartPending => "StartPending"@,
        ServiceStateKind::StopPending => "StopPending"@,
        ServiceStateKind::Running => "Running"@,
        ServiceStateKind::ContinuePending => "ContinuePending"@,
        ServiceStateKind::PausePending => "PausePending"@,
        ServiceStateKind::Paused => "Paused"@,
    }
}

pub fn service_state_label(s: ServiceStateKind) -> (r: String)
    ensures
        r@ == state_label(s),
{
    match s {
        ServiceStateKind::Stopped => String::from_str("Stopped"),
        ServiceStateKind::StartPending => String::from_str("StartPending"),
        ServiceStateKind::StopPending => String::from_str("StopPending"),
        ServiceStateKind::Running => String::from_str("Running"),
        ServiceStateKind::ContinuePending => String::from_str("ContinuePending"),
        ServiceStateKind::PausePending => String::from_str("PausePending"),
        ServiceStateKind::Paused => String::from_str("Paused"),
    }
}

/// The status answer: the rule count adds the configured rules and the
/// routes found only in the forwarding table.
pub fn status_response(
    installed: bool,
    state: String,
    config_path: String,
    config_rule_count: usize,
    system_rule_count: usize,
    version: String,
) -> (r: StatusResponse)
    requires
        config_rule_count + system_rule_count <= usize::MAX,
    ensures
        r.installed == installed,
        r.state == state,
        r.config_path == config_path,
        r.rule_count == config_rule_count + system_rule_count,
        r.config_rule_count == config_rule_count,
        r.system_rule_count == system_rule_count,
        r.version == version,
{
    StatusResponse {
        installed,
        state,
        config_path,
        rule_count: config_rule_count + system_rule_count,
        config_rule_count,
        system_rule_count,
        version,
    }
}

/// The route list: every configured rule with its index, then every
/// system route without one.
pub fn route_items(config_rules: Vec<RoutingRule>, system_rules: Vec<RoutingRule>) -> (items: Vec<
    RouteItem,
>)
    ensures
        items@.len() == config_rules@.len() + system_rules@.len(),
        forall|i: int|
            0 <= i < config_rules@.len() ==> (#[trigger] items@[i]).index == Some(i as usize)
                && items@[i].rule == config_rules@[i] && items@[i].source == RouteSource::Config,
        forall|i: int|
            config_rules@.len() <= i < items@.len() ==> (#[trigger] items@[i]).index is None
                && items@[i].rule == system_rules@[i - config_rules@.len()] && items@[i].source
                == RouteSource::System,
{
    let mut items: Vec<RouteItem> = Vec::new();
    let mut rest = config_rules;
    let ghost all = rest@;
    let n = rest.len();
    let mut i: usize = 0;
    while rest.len() > 0
        invariant
            all == config_rules@,
            all.len() == n,
            i <= n,
            rest@ == all.subrange(i as int, n as int),
            items@.len() == i,
            forall|k: int|
                0 <= k < i ==> (#[trigger] items@[k]).index == Some(k as usize) && items@[k].rule
                    == all[k] && items@[k].source == RouteSource::Config,
        decreases rest@.len(),
    {
        let rule = rest.remove(0);
        assert(rule == all[i as int]);
        items.push(RouteItem { index: Some(i), rule, source: RouteSource::Config });
        i = i + 1;
    }
    let mut rest = system_rules;
    let ghost sys = rest@;
    let m = rest.len();
    let mut j: usize = 0;
    while rest.len() > 0
        invariant
            all == config_rules@,
            all.len() == n,
            sys == system_rules@,
            sys.len() == m,
            j <= m,
            rest@ == sys.subrange(j as int, m as int),
            items@.len() == n + j,
            forall|k: int|
                0 <= k < n ==> (#[trigger] items@[k]).index == Some(k as usize) && items@[k].rule
                    == all[k] && items@[k].source == RouteSource::Config,
            forall|k: int|
                n <= k < n + j ==> (#[trigger] items@[k]).index is None && items@[k].rule == sys[k
                    - n] && items@[k].source == RouteSource::System,
        decreases rest@.len(),
    {
        let rule = rest.remove(0);
        assert(rule == sys[j as int]);
        items.push(RouteItem { index: None, rule, source: RouteSource::System });
        j = j + 1;
    }
    items
}

} // verus!
