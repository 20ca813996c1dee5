//! Rule model, validation and packet-header logic of the roust packet router.

pub mod text;
pub mod ipv4;
pub mod cidr;
pub mod mac;
pub mod tables;
pub mod config;
pub mod paths;
pub mod rewrite;
pub mod app_binds;
pub mod dns_exceptions;
pub mod host_overrides;
pub mod hosts_file;
pub mod routes;
pub mod windivert;
pub mod packet;
pub mod interfaces;
pub mod lists;
pub mod setup;
pub mod ping;
pub mod processes;
pub mod binds;
pub mod resolve;
pub mod api;
pub mod management;
pub mod cli;
pub mod gateway_cli;
pub mod nic_cli;
