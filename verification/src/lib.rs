//! The decision logic of an IPv6-only mesh VPN node.
//!
//! Everything a node decides lives here as functions from plain values to
//! plain values, each with a proved contract: which endpoint of a peer to try
//! next, when to fall back to a relay and when to leave it, what a relay
//! forwards, whom a gossip message admits, which routes are installed.
//! Sockets, clocks, files and the WireGuard device are the caller's business:
//! the caller reads them, calls a function of this crate, and performs the
//! effects that come back.

pub mod addr;
pub mod atomic;
pub mod cache;
pub mod candidates;
pub mod config;
pub mod daemon;
pub mod ddns;
pub mod dht;
pub mod doctor_client;
pub mod fsm;
pub mod gossip;
pub mod http;
pub mod keys;
pub mod lan;
pub mod members;
pub mod platform;
pub mod probe;
pub mod probe_responder;
pub mod proto;
pub mod relay;
pub mod relay_client;
pub mod relay_server;
pub mod route;
pub mod route_manager;
pub mod seqs;
pub mod spec;
pub mod state;
pub mod status;
pub mod table;
pub mod text;
pub mod time;
pub mod wg;
pub mod wg_userspace;
pub mod xtask;
