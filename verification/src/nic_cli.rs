//! The command line of the NIC-routing tool: NIC listing, IP destination
//! rules and router start and stop.

use vstd::prelude::*;

verus! {

/// The parsed command line.
#[derive(Clone, Debug)]
pub struct Cli {
    pub command: Commands,
    /// Path to the configuration file.
    pub config: Option<String>,
    /// Verbose logging.
    pub verbose: bool,
}

#[derive(Clone, Debug)]
pub enum Commands {
    /// NIC operations.
    Nics { action: NicCommands },
    /// IP to destination rules.
    Ip { action: IpCommands },
    /// Start the router.
    Start { service: bool, install_service: bool },
    /// Stop the router.
    Stop { service: bool, uninstall_service: bool },
}

#[derive(Clone, Copy, Debug, PartialEq, Eq, Structural)]
pub enum NicCommands {
    /// Display all network interfaces.
    Show,
}

#[derive(Clone, Debug)]
pub enum IpCommands {
    Dest { action: IpDestCommands },
}

#[derive(Clone, Debug)]
pub enum IpDestCommands {
    /// Show where an IP address is routed.
    Show { ip: String },
    /// Add a routing rule.
    Add { ip: Option<String>, dest: String, file: Option<String> },
}

} // verus!
