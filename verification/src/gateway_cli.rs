//! The command line of the rewrite-rule tool: rules name their target by
//! MAC, NIC or gateway, and gateways can be listed.

use vstd::prelude::*;

verus! {

/// The parsed command line.
#[derive(Clone, Debug)]
pub struct Cli {
    pub command: Option<Commands>,
    /// Path to `routes.json`.
    pub config: Option<String>,
    /// Register the Windows service.
    pub install_service: bool,
    /// Remove the Windows service registration.
    pub uninstall_service: bool,
}

#[derive(Clone, Debug)]
pub enum Commands {
    Add { action: RuleAction },
    Delete { action: RuleAction },
    Edit { action: RuleAction },
    Rule { action: RuleCommands },
    Gateway { action: GatewayCommands },
    Predict { ip: String },
    Start,
    Stop,
    Restart,
    Status,
}

#[derive(Clone, Debug)]
pub enum RuleAction {
    Rule {
        ip: Option<String>,
        /// MAC address of the target adapter; wins over `nic` and `gateway`.
        mac: Option<String>,
        /// Name of the target adapter; wins over `gateway`.
        nic: Option<String>,
        /// Default gateway of the target adapter.
        gateway: Option<String>,
        rewrite_to: Option<String>,
        file: Option<String>,
    },
}

#[derive(Clone, Copy, Debug, PartialEq, Eq, Structural)]
pub enum RuleCommands {
    /// List all routing rules.
    List,
}

#[derive(Clone, Copy, Debug, PartialEq, Eq, Structural)]
pub enum GatewayCommands {
    /// List the default gateways of the local interfaces.
    List,
}

/// The rewrite target a rule command names: the MAC when given, else the
/// NIC, else the gateway.
pub open spec fn chosen_target(
    mac: Option<String>,
    nic: Option<String>,
    gateway: Option<String>,
) -> Option<String> {
    if mac is Some {
        mac
    } else if nic is Some {
        nic
    } else {
        gateway
    }
}

/// Picks the rewrite target of a rule command by priority.
pub fn rule_target(mac: Option<String>, nic: Option<String>, gateway: Option<String>) -> (r: Option<
    String,
>)
    ensures
        r == chosen_target(mac, nic, gateway),
{
    match mac {
        Some(m) => Some(m),
        None => match nic {
            Some(n) => Some(n),
            None => gateway,
        },
    }
}

} // verus!
