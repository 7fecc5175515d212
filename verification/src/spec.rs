//! From a configuration to a WireGuard device.

use crate::config::{Config, Peer};
use crate::route::{self, allowed_ips_for};
use crate::wg::types::{DeviceSpec, DeviceSpecModel, PeerSpec, PeerSpecModel};
use vstd::prelude::*;

verus! {

/// The keepalive interval that `secs` stands for: none when it is 0.
pub open spec fn interval(secs: u16) -> Option<u16> {
    if secs == 0 {
        None
    } else {
        Some(secs)
    }
}

/// The keepalive interval of a peer: its own setting, or else the node's.
pub open spec fn peer_interval(peer: Peer, node_keepalive: u16) -> Option<u16> {
    interval(
        match peer.keepalive {
            Some(k) => k,
            None => node_keepalive,
        },
    )
}

/// What the device should know of a configured peer.
pub open spec fn peer_spec(peer: Peer, node_keepalive: u16) -> PeerSpecModel {
    PeerSpecModel {
        wg_public: peer.wg_public,
        endpoint: if peer.endpoints@.len() > 0 {
            Some(peer.endpoints@[0])
        } else {
            None
        },
        allowed_ips: route::allowed_ips(peer.site, peer.routes@),
        persistent_keepalive: peer_interval(peer, node_keepalive),
    }
}

/// The device that a configuration describes.
pub open spec fn device_spec(cfg: Config, wg_secret: [u8; 32]) -> DeviceSpecModel {
    DeviceSpecModel {
        interface: cfg.node.interface@,
        listen_port: cfg.node.listen_port,
        wg_secret,
        peers: cfg.peers@.map_values(|p: Peer| peer_spec(p, cfg.node.keepalive)),
    }
}

/// The keepalive interval of the node.
pub fn keepalive_secs(cfg: &Config) -> (k: Option<u16>)
    ensures
        k == interval(cfg.node.keepalive),
{
    keepalive_opt(cfg.node.keepalive)
}

/// The keepalive interval of a peer: its own setting, or else the node's.
pub fn peer_keepalive_secs(peer: &Peer, node_keepalive: u16) -> (k: Option<u16>)
    ensures
        k == peer_interval(*peer, node_keepalive),
{
    match peer.keepalive {
        Some(secs) => keepalive_opt(secs),
        None => keepalive_opt(node_keepalive),
    }
}

/// The keepalive interval that a number of seconds stands for: none when it
/// is 0.
pub fn keepalive_opt(secs: u16) -> (k: Option<u16>)
    ensures
        k == interval(secs),
{
    if secs == 0 {
        None
    } else {
        Some(secs)
    }
}

/// The device that a configuration describes.
///
/// Every peer starts with its first configured endpoint, if it has one; the
/// punching state machine corrects it later.
pub fn build_device_spec(cfg: &Config, wg_secret: &[u8; 32]) -> (spec: DeviceSpec)
    ensures
        spec@ == device_spec(*cfg, *wg_secret),
{
    let mut peers: Vec<PeerSpec> = Vec::new();
    let mut i: usize = 0;
    while i < cfg.peers.len()
        invariant
            i <= cfg.peers.len(),
            peers.len() == i,
            forall|j: int|
                0 <= j < i ==> (#[trigger] peers@[j])@ == peer_spec(
                    cfg.peers@[j],
                    cfg.node.keepalive,
                ),
        decreases cfg.peers.len() - i,
    {
        let p = &cfg.peers[i];
        let endpoint = if p.endpoints.len() > 0 {
            Some(p.endpoints[0])
        } else {
            None
        };
        peers.push(
            PeerSpec {
                wg_public: p.wg_public,
                endpoint,
                allowed_ips: allowed_ips_for(p.site, p.routes.as_slice()),
                persistent_keepalive: peer_keepalive_secs(p, cfg.node.keepalive),
            },
        );
        i = i + 1;
    }
    let spec = DeviceSpec {
        interface: cfg.node.interface.clone(),
        listen_port: cfg.node.listen_port,
        wg_secret: *wg_secret,
        peers,
    };
    assert(spec@.peers =~= device_spec(*cfg, *wg_secret).peers);
    spec
}

/// Every peer of the device may use its own site, whatever it advertises.
pub proof fn law_site_always_allowed(peer: Peer, node_keepalive: u16)
    ensures
        peer_spec(peer, node_keepalive).allowed_ips.len() == 1 + peer.routes@.len(),
        peer_spec(peer, node_keepalive).allowed_ips[0] == (peer.site, route::SITE_PREFIX_LEN),
        forall|i: int|
            0 <= i < peer.routes@.len() ==> peer_spec(peer, node_keepalive).allowed_ips[i + 1] == (
                (#[trigger] peer.routes@[i]).prefix,
                peer.routes@[i].prefix_len,
            ),
{
}

/// A peer of the device has its key, starts at its first configured endpoint,
/// and keeps its tunnel open at its own interval or else the node's; 0 means not
/// at all.
pub proof fn law_peer_of_the_device(peer: Peer, node_keepalive: u16)
    ensures
        ({
            let s = peer_spec(peer, node_keepalive);
            let secs = match peer.keepalive {
                Some(k) => k,
                None => node_keepalive,
            };
            &&& s.wg_public == peer.wg_public
            &&& peer.endpoints@.len() > 0 ==> s.endpoint == Some(peer.endpoints@[0])
            &&& peer.endpoints@.len() == 0 ==> s.endpoint is None
            &&& secs == 0 ==> s.persistent_keepalive is None
            &&& secs != 0 ==> s.persistent_keepalive == Some(secs)
            &&& s.allowed_ips.len() == 1 + peer.routes@.len()
            &&& s.allowed_ips[0] == (peer.site, 64u8)
        }),
        interval(node_keepalive) == if node_keepalive == 0 {
            None
        } else {
            Some(node_keepalive)
        },
{
}

/// The device has the configured name and port, the secret, and every configured
/// peer in its place.
pub proof fn law_device_has_every_peer(cfg: Config, wg_secret: [u8; 32], i: int)
    ensures
        ({
            let d = device_spec(cfg, wg_secret);
            &&& d.interface == cfg.node.interface@
            &&& d.listen_port == cfg.node.listen_port
            &&& d.wg_secret == wg_secret
            &&& d.peers.len() == cfg.peers@.len()
            &&& 0 <= i < cfg.peers@.len() ==> d.peers[i] == peer_spec(
                cfg.peers@[i],
                cfg.node.keepalive,
            )
        }),
{
}

} // verus!
