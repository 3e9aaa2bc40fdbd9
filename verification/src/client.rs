//! The peer-side command-line operating modes and their parameters.
//!
//! A peer process either serves the peer-agent API and applies pushed
//! configuration, or deregisters itself from the coordinator once and
//! exits.

use vstd::prelude::*;

verus! {

/// Parameters of the listening peer-agent mode.
#[derive(Debug)]
pub struct ClientServerArg {
    /// This peer's reachable host name or address.
    pub endpoint: String,
    /// Port the peer-agent control service listens on.
    pub port: u16,
    /// Egress interface name for this peer's NAT rules.
    pub nic_name: String,
    /// Host of the coordinator.
    pub ws_endpoint: String,
    /// Port of the coordinator.
    pub ws_port: u16,
}

/// Parameters of the one-shot deregistration mode.
#[derive(Debug)]
pub struct ClientDeleteArg {
    /// This peer's reachable host name or address.
    pub endpoint: String,
    /// Port this peer's control service listens on.
    pub port: u16,
    /// Host of the coordinator.
    pub ws_endpoint: String,
    /// Port of the coordinator.
    pub ws_port: u16,
}

/// The peer-side operating mode.
#[derive(Debug)]
pub enum Client {
    /// Serve the peer-agent API and apply pushed configuration.
    Server(ClientServerArg),
    /// Call the coordinator's Delete once and exit.
    Delete(ClientDeleteArg),
}

} // verus!
