//! What the kernel back end computes.

use super::types::{DeviceSpec, PeerSpec, PeerSpecModel, PeerStatus, WgError};
use crate::addr::{Ipv6Addr, SocketAddr};
use vstd::prelude::*;
use vstd::string::StringSliceAdditionalSpecFns;

verus! {

/// The back end that drives the kernel's own WireGuard over netlink.
#[derive(Debug)]
pub struct KernelBackend;

/// The bytes of the key that a base64 text stands for, as the crate
/// `wireguard_control` reads it; none when the text is no key.
pub uninterp spec fn decoded_key(text: Seq<char>) -> Option<Seq<u8>>;

/// Calls `base64::Engine::encode` on the engine `STANDARD`.
///
/// Claimed: `Key::from_base64` of `wireguard_control` reads the text back as
/// the same 32 bytes. How the text looks is not said.
#[verifier::external_body]
fn encode_key(bytes: &[u8; 32]) -> (text: String)
    ensures
        decoded_key(text@) == Some(bytes@),
{
    base64::Engine::encode(&base64::engine::general_purpose::STANDARD, bytes)
}

/// Calls `wireguard_control::Key::from_base64` and hands out the bytes.
///
/// Claimed: whether the text is a key, and of which bytes, depends on the text
/// alone.
#[verifier::external_body]
fn decode_key(text: &str) -> (key: Option<[u8; 32]>)
    ensures
        key is Some <==> decoded_key(text@) is Some,
        key matches Some(k) ==> decoded_key(text@) == Some(k@),
{
    wireguard_control::Key::from_base64(text).ok().map(|k| k.0)
}

/// Hands raw key bytes to `wireguard_control` by way of base64, which does not
/// depend on how that crate lays out a key. The key has the same bytes.
pub fn key_from_bytes(bytes: &[u8; 32]) -> (key: [u8; 32])
    ensures
        key == *bytes,
{
    let text = encode_key(bytes);
    let key = decode_key(text.as_str()).unwrap();
    assert(key =~= *bytes);
    key
}

/// Whether bytes can name a Linux interface: there are one to fifteen of them,
/// and none is NUL, a slash or white space.
pub open spec fn is_interface_name(bytes: Seq<u8>) -> bool {
    &&& 0 < bytes.len() <= 15
    &&& forall|i: int|
        0 <= i < bytes.len() ==> {
            let b = #[trigger] bytes[i];
            b != 0 && b != 0x2f && b != 0x20 && b != 0x09 && b != 0x0a && b != 0x0c && b != 0x0d
        }
}

/// Whether the error says that no interface can have this name.
pub open spec fn is_bad_name(e: WgError, name: Seq<char>) -> bool {
    e matches WgError::Backend(why) && why@ == "invalid interface name "@ + name
}

/// Parses a `wireguard_control::InterfaceName` and tells whether that worked.
///
/// Claimed: it works for exactly those names whose bytes can name a Linux
/// interface.
#[verifier::external_body]
fn parses_as_interface(name: &str) -> (ok: bool)
    ensures
        ok == is_interface_name(name.spec_bytes()),
{
    name.parse::<wireguard_control::InterfaceName>().is_ok()
}

/// Checks the name of an interface.
pub fn iface(name: &str) -> (r: Result<(), WgError>)
    ensures
        r is Ok <==> is_interface_name(name.spec_bytes()),
        r matches Err(e) ==> is_bad_name(e, name@),
{
    if parses_as_interface(name) {
        Ok(())
    } else {
        let mut why = "invalid interface name ".to_owned();
        why.append(name);
        Err(WgError::Backend(why))
    }
}

/// A peer as the kernel is told of it.
#[derive(Debug)]
pub struct KernelPeer {
    /// The public key.
    pub key: [u8; 32],
    /// The endpoint to set, if one is set.
    pub endpoint: Option<SocketAddr>,
    /// The addresses that the peer may use.
    pub allowed_ips: Vec<(Ipv6Addr, u8)>,
    /// The keepalive interval to set, if one is set.
    pub keepalive: Option<u16>,
}

/// What the kernel is told of a device. All its peers are replaced.
#[derive(Debug)]
pub struct KernelUpdate {
    /// The name of the interface.
    pub interface: String,
    /// The secret key.
    pub private_key: [u8; 32],
    /// The UDP port to listen on.
    pub listen_port: u16,
    /// The peers.
    pub peers: Vec<KernelPeer>,
}

/// Whether the kernel is told of a peer what is wanted of it.
pub open spec fn tells(k: KernelPeer, p: PeerSpecModel) -> bool {
    &&& k.key == p.wg_public
    &&& k.endpoint == match p.endpoint {
        Some(e) => Some(SocketAddr::V6(e)),
        None => None,
    }
    &&& k.allowed_ips@ == p.allowed_ips
    &&& k.keepalive == p.persistent_keepalive
}

/// What the kernel is told of a peer.
pub fn kernel_peer(p: &PeerSpec) -> (k: KernelPeer)
    ensures
        tells(k, p@),
{
    let endpoint = match p.endpoint {
        Some(e) => Some(SocketAddr::V6(e)),
        None => None,
    };
    KernelPeer {
        key: key_from_bytes(&p.wg_public),
        endpoint,
        allowed_ips: vstd::slice::slice_to_vec(p.allowed_ips.as_slice()),
        keepalive: p.persistent_keepalive,
    }
}

impl KernelBackend {
    /// What the kernel has to be told for a device to come up. A name that no
    /// interface can have is refused.
    pub fn apply(&self, spec: &DeviceSpec) -> (r: Result<KernelUpdate, WgError>)
        ensures
            r is Ok <==> is_interface_name(vstd::utf8::encode_utf8(spec.interface@)),
            r matches Ok(u) ==> {
                &&& u.interface@ == spec.interface@
                &&& u.private_key == spec.wg_secret
                &&& u.listen_port == spec.listen_port
                &&& u.peers@.len() == spec.peers@.len()
                &&& forall|i: int|
                    0 <= i < u.peers@.len() ==> tells(#[trigger] u.peers@[i], spec.peers@[i]@)
            },
            r matches Err(e) ==> is_bad_name(e, spec.interface@),
    {
        match iface(spec.interface.as_str()) {
            Ok(_) => {},
            Err(e) => {
                return Err(e);
            },
        }
        let mut peers: Vec<KernelPeer> = Vec::new();
        let mut i: usize = 0;
        while i < spec.peers.len()
            invariant
                i <= spec.peers.len(),
                peers.len() == i,
                forall|j: int| 0 <= j < i ==> tells(#[trigger] peers@[j], spec.peers@[j]@),
            decreases spec.peers.len() - i,
        {
            peers.push(kernel_peer(&spec.peers[i]));
            i = i + 1;
        }
        Ok(
            KernelUpdate {
                interface: spec.interface.clone(),
                private_key: key_from_bytes(&spec.wg_secret),
                listen_port: spec.listen_port,
                peers,
            },
        )
    }

    /// The status of a device, given what the kernel reports of its peers, or
    /// nothing when it knows no such device.
    pub fn status(&self, interface: &str, reported: Option<Vec<PeerStatus>>) -> (r: Result<
        Vec<PeerStatus>,
        WgError,
    >)
        ensures
            r is Ok <==> is_interface_name(interface.spec_bytes()) && reported is Some,
            r matches Ok(list) ==> reported == Some(list),
            r matches Err(e) ==> if is_interface_name(interface.spec_bytes()) {
                e matches WgError::NotFound(name) && name@ == interface@
            } else {
                is_bad_name(e, interface@)
            },
    {
        match iface(interface) {
            Ok(_) => {},
            Err(e) => {
                return Err(e);
            },
        }
        match reported {
            Some(list) => Ok(list),
            None => Err(WgError::NotFound(interface.to_owned())),
        }
    }

    /// The kernel owns its devices: taking one down is deleting an interface,
    /// which is not this back end's affair.
    pub fn down(&self, _interface: &str) -> (r: Result<(), WgError>)
        ensures
            r matches Err(WgError::Backend(why)) && why@ == "delete the interface instead"@,
    {
        Err(WgError::Backend("delete the interface instead".to_owned()))
    }
}

/// The kernel is told of a peer what is asked for: its key, its endpoint when it
/// has one, all its addresses, its keepalive interval.
pub proof fn law_kernel_is_told_as_asked(k: KernelPeer, p: PeerSpecModel)
    requires
        tells(k, p),
    ensures
        k.key == p.wg_public,
        p.endpoint matches Some(e) ==> k.endpoint == Some(SocketAddr::V6(e)),
        p.endpoint is None ==> k.endpoint is None,
        k.allowed_ips@ == p.allowed_ips,
        k.keepalive == p.persistent_keepalive,
{
}

} // verus!
