//! The parts of a node's configuration that decisions depend on.

use crate::addr::{Ipv6Addr, SocketAddrV6};
use crate::route::Ipv6Route;
use vstd::prelude::*;

verus! {

/// The settings of the node itself.
#[derive(Debug)]
pub struct NodeConfig {
    /// The name of the interface.
    pub interface: String,
    /// The WireGuard port.
    pub listen_port: u16,
    /// The keepalive interval in seconds; 0 switches it off.
    pub keepalive: u16,
    /// The port on which probes are answered.
    pub probe_port: u16,
    /// Whether this node is a relay.
    pub relay: bool,
    /// The port on which it takes control frames as a relay.
    pub relay_port: u16,
    /// The keys that may use this node as a relay; none means every member.
    pub relay_allow: Vec<[u8; 32]>,
    /// Whether to announce this node on the local networks.
    pub lan_discovery: bool,
    /// The port of those announcements.
    pub lan_port: u16,
    /// Whether to gossip through the tunnels.
    pub gossip: bool,
    /// The port of the gossip.
    pub gossip_port: u16,
    /// Whether to use the distributed hash table.
    pub dht: bool,
    /// Whether to publish this node's address under its own domain.
    pub ddns: bool,
    /// The name to publish under.
    pub ddns_fqdn: Option<String>,
    /// How to publish.
    pub ddns_provider: DdnsProvider,
    /// The URL of a webhook that publishes.
    pub ddns_webhook_url: Option<String>,
    /// The secret that publishing needs.
    pub ddns_secret: Option<String>,
    /// The zone to publish in.
    pub ddns_zone: Option<String>,
    /// The address on which the status is served.
    pub http_addr: Option<Ipv6Addr>,
    /// The port on which the status is served.
    pub http_port: Option<u16>,
}

/// How a node's address is published under its own domain.
#[derive(Clone, Copy, PartialEq, Eq, Debug, Structural)]
pub enum DdnsProvider {
    /// By a webhook.
    Webhook,
    /// By the interface of Cloudflare.
    Cloudflare,
}

/// A configured peer.
#[derive(Debug)]
pub struct Peer {
    /// Its name.
    pub name: String,
    /// The base64 of its public key.
    pub key_b64: String,
    /// Its public key.
    pub public_key: [u8; 32],
    /// Its WireGuard key.
    pub wg_public: [u8; 32],
    /// Its overlay address.
    pub address: Ipv6Addr,
    /// Its site.
    pub site: Ipv6Addr,
    /// Its endpoints.
    pub endpoints: Vec<SocketAddrV6>,
    /// The routes behind it.
    pub routes: Vec<Ipv6Route>,
    /// Its keepalive interval, when it differs from the node's.
    pub keepalive: Option<u16>,
    /// Whether it can be used as a relay.
    pub relay: bool,
    /// Where it takes control frames as a relay.
    pub relay_control: Vec<SocketAddrV6>,
    /// The name under which it publishes its address.
    pub ddns: Option<String>,
}

/// A node's configuration.
#[derive(Debug)]
pub struct Config {
    /// The settings of the node itself.
    pub node: NodeConfig,
    /// The configured peers.
    pub peers: Vec<Peer>,
}

} // verus!
