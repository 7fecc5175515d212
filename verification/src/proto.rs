//! The status report, as it is shown.

use vstd::prelude::*;

verus! {

/// Whether the node's daemon is alive.
#[derive(Debug)]
pub struct DaemonInfo {
    /// Whether it is running.
    pub running: bool,
    /// How long ago it last wrote its state, in seconds.
    pub updated_secs_ago: u64,
    /// The path of its state file.
    pub state_file: String,
}

/// The status of a peer.
#[derive(Debug)]
pub struct StatusRow {
    /// The peer's name.
    pub peer: String,
    /// Its overlay address.
    pub address: String,
    /// The endpoint that the device holds.
    pub endpoint: Option<String>,
    /// How long ago the last handshake took place, in seconds.
    pub last_handshake_secs: Option<u64>,
    /// The bytes received.
    pub rx_bytes: u64,
    /// The bytes sent.
    pub tx_bytes: u64,
    /// `connected`, `stale` or `no-handshake`.
    pub state: String,
    /// Where the endpoint is known from.
    pub endpoint_source: Option<String>,
    /// `probing`, `connected` or `relayed`.
    pub punch_state: Option<String>,
    /// How many candidates there are.
    pub candidates: Option<usize>,
    /// The candidate being tried.
    pub candidate_index: Option<usize>,
    /// How many endpoints the local network reports.
    pub lan_endpoints: Option<usize>,
    /// How many endpoints gossip reports.
    pub gossip_endpoints: Option<usize>,
    /// How many endpoints the peer's own domain reports.
    pub ddns_endpoints: Option<usize>,
    /// The relay in use.
    pub relay_via: Option<String>,
    /// The routes installed for the peer.
    pub routes: Vec<String>,
}

/// The status of the node.
#[derive(Debug)]
pub struct StatusReport {
    /// Whether the daemon is alive; nothing when it left no state.
    pub daemon: Option<DaemonInfo>,
    /// The peers.
    pub peers: Vec<StatusRow>,
}

} // verus!
