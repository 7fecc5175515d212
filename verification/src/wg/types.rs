//! Devices and peers, whatever the back end.

use crate::addr::{Ipv6Addr, SocketAddr, SocketAddrV6};
use crate::time::SystemTime;
use vstd::prelude::*;

verus! {

/// What a WireGuard device should be.
#[derive(Debug)]
pub struct DeviceSpec {
    /// The name of the interface.
    pub interface: String,
    /// The UDP port to listen on.
    pub listen_port: u16,
    /// The secret key.
    pub wg_secret: [u8; 32],
    /// The peers.
    pub peers: Vec<PeerSpec>,
}

/// What a peer of a device should be.
#[derive(Debug)]
pub struct PeerSpec {
    /// The public key.
    pub wg_public: [u8; 32],
    /// The endpoint to start with.
    pub endpoint: Option<SocketAddrV6>,
    /// The addresses that the peer may use.
    pub allowed_ips: Vec<(Ipv6Addr, u8)>,
    /// The keepalive interval in seconds.
    pub persistent_keepalive: Option<u16>,
}

/// What a device reports of a peer.
#[derive(Clone, Copy, Debug)]
pub struct PeerStatus {
    /// The public key.
    pub wg_public: [u8; 32],
    /// The endpoint that the device holds.
    pub endpoint: Option<SocketAddr>,
    /// When the last handshake took place.
    pub last_handshake: Option<SystemTime>,
    /// The bytes received.
    pub rx_bytes: u64,
    /// The bytes sent.
    pub tx_bytes: u64,
}

/// Why a back end failed.
#[derive(Debug)]
pub enum WgError {
    /// There is no such interface.
    NotFound(String),
    /// The system refused.
    Backend(String),
}

/// What a [`PeerSpec`] holds.
pub struct PeerSpecModel {
    /// The public key.
    pub wg_public: [u8; 32],
    /// The endpoint to start with.
    pub endpoint: Option<SocketAddrV6>,
    /// The addresses that the peer may use.
    pub allowed_ips: Seq<(Ipv6Addr, u8)>,
    /// The keepalive interval in seconds.
    pub persistent_keepalive: Option<u16>,
}

/// What a [`DeviceSpec`] holds.
pub struct DeviceSpecModel {
    /// The name of the interface.
    pub interface: Seq<char>,
    /// The UDP port to listen on.
    pub listen_port: u16,
    /// The secret key.
    pub wg_secret: [u8; 32],
    /// The peers.
    pub peers: Seq<PeerSpecModel>,
}

impl View for PeerSpec {
    type V = PeerSpecModel;

    open spec fn view(&self) -> PeerSpecModel {
        PeerSpecModel {
            wg_public: self.wg_public,
            endpoint: self.endpoint,
            allowed_ips: self.allowed_ips@,
            persistent_keepalive: self.persistent_keepalive,
        }
    }
}

impl View for DeviceSpec {
    type V = DeviceSpecModel;

    open spec fn view(&self) -> DeviceSpecModel {
        DeviceSpecModel {
            interface: self.interface@,
            listen_port: self.listen_port,
            wg_secret: self.wg_secret,
            peers: self.peers@.map_values(|p: PeerSpec| p@),
        }
    }
}

impl Clone for PeerSpec {
    fn clone(&self) -> (p: Self)
        ensures
            p@ == self@,
    {
        PeerSpec {
            wg_public: self.wg_public,
            endpoint: self.endpoint,
            allowed_ips: vstd::slice::slice_to_vec(self.allowed_ips.as_slice()),
            persistent_keepalive: self.persistent_keepalive,
        }
    }
}

impl Clone for DeviceSpec {
    fn clone(&self) -> (d: Self)
        ensures
            d@ == self@,
    {
        let mut peers: Vec<PeerSpec> = Vec::new();
        let mut i: usize = 0;
        while i < self.peers.len()
            invariant
                i <= self.peers.len(),
                peers.len() == i,
                forall|j: int| 0 <= j < i ==> (#[trigger] peers@[j])@ == self.peers@[j]@,
            decreases self.peers.len() - i,
        {
            peers.push(self.peers[i].clone());
            i = i + 1;
        }
        let d = DeviceSpec {
            interface: self.interface.clone(),
            listen_port: self.listen_port,
            wg_secret: self.wg_secret,
            peers,
        };
        assert(d@.peers =~= self@.peers);
        d
    }
}

impl WgError {
    /// What the error says.
    pub open spec fn text(self) -> Seq<char> {
        match self {
            WgError::NotFound(name) => "interface "@ + name@ + " not found"@,
            WgError::Backend(why) => "wireguard backend error: "@ + why@,
        }
    }

    /// What the error says.
    pub fn message(&self) -> (s: String)
        ensures
            s@ == self.text(),
    {
        match self {
            WgError::NotFound(name) => {
                let mut s = "interface ".to_owned();
                s.append(name.as_str());
                s.append(" not found");
                s
            },
            WgError::Backend(why) => {
                let mut s = "wireguard backend error: ".to_owned();
                s.append(why.as_str());
                s
            },
        }
    }
}

} // verus!
