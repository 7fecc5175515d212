//! The client side of a relay: opening a session, renewing it, closing it.
//!
//! Registering is a question that has to be answered: only the answer tells at
//! which port of the relay the peer will be reached.

use crate::addr::{SocketAddr, SocketAddrV6};
use crate::candidates::{self, normalize};
use crate::keys::same_key;
use crate::relay::{RelayFrame, RelayKind};
use crate::relay_server;
use vstd::prelude::*;

verus! {

/// How long to wait for an answer before asking again, in nanoseconds: 0.7 s.
pub const RETRY_INTERVAL: u64 = 700_000_000;

/// How long to ask before giving up, in nanoseconds: 5 s.
pub const REGISTER_TIMEOUT: u64 = 5_000_000_000;

/// How often a session is renewed, in nanoseconds: 30 s.
pub const REGISTER_INTERVAL: u64 = relay_server::REGISTER_INTERVAL;

/// A session at a relay.
#[derive(Clone, Copy, PartialEq, Eq, Debug, Structural)]
pub struct RelaySession {
    /// Where the relay takes packets for the peer.
    pub endpoint: SocketAddrV6,
    /// The control address that answered.
    pub control: SocketAddrV6,
}

/// Tells whether it makes sense to register at all: there is somebody to ask,
/// and a port for the relay to send to.
pub fn can_register(control_addrs: &[SocketAddrV6], wg_listen_port: u16) -> (yes: bool)
    ensures
        yes == (control_addrs@.len() > 0 && wg_listen_port != 0),
{
    control_addrs.len() > 0 && wg_listen_port != 0
}

/// The frame that asks for a session.
pub open spec fn register_frame_of(
    self_key: [u8; 32],
    peer_key: [u8; 32],
    port: u16,
    now_unix: u64,
) -> RelayFrame {
    RelayFrame { kind: RelayKind::Register, port, seq: now_unix, self_key, peer_key }
}

/// The frame that asks for a session with `peer_key`, or renews it.
pub fn register_frame(
    self_key: &[u8; 32],
    peer_key: &[u8; 32],
    wg_listen_port: u16,
    now_unix: u64,
) -> (frame: RelayFrame)
    ensures
        frame == register_frame_of(*self_key, *peer_key, wg_listen_port, now_unix),
{
    RelayFrame {
        kind: RelayKind::Register,
        port: wg_listen_port,
        seq: now_unix,
        self_key: *self_key,
        peer_key: *peer_key,
    }
}

/// The frame that closes the session with `peer_key`.
pub fn unregister_frame(
    self_key: &[u8; 32],
    peer_key: &[u8; 32],
    wg_listen_port: u16,
    now_unix: u64,
) -> (frame: RelayFrame)
    ensures
        frame == (RelayFrame {
            kind: RelayKind::Unregister,
            port: wg_listen_port,
            seq: now_unix,
            self_key: *self_key,
            peer_key: *peer_key,
        }),
{
    RelayFrame {
        kind: RelayKind::Unregister,
        port: wg_listen_port,
        seq: now_unix,
        self_key: *self_key,
        peer_key: *peer_key,
    }
}

/// The session that an answer opens, if it is the answer to the question asked
/// for these two keys: an acknowledgement of the same pair, with a port, over
/// IPv6.
pub open spec fn session_of(
    ack: Option<RelayFrame>,
    src: SocketAddr,
    self_key: [u8; 32],
    peer_key: [u8; 32],
) -> Option<RelaySession> {
    match (ack, src) {
        (Some(a), SocketAddr::V6(from)) => if a.kind == RelayKind::RegisterAck && a.self_key
            == self_key && a.peer_key == peer_key && a.port != 0 {
            Some(
                RelaySession {
                    endpoint: SocketAddrV6 { ip: from.ip, port: a.port, flowinfo: 0, scope_id: 0 },
                    control: candidates::normal(from),
                },
            )
        } else {
            None
        },
        _ => None,
    }
}

/// Takes what came back to a registration: `ack` is the frame, or `None` when
/// the datagram is no authentic frame.
pub fn accept_ack(
    ack: Option<RelayFrame>,
    src: SocketAddr,
    self_key: &[u8; 32],
    peer_key: &[u8; 32],
) -> (session: Option<RelaySession>)
    ensures
        session == session_of(ack, src, *self_key, *peer_key),
{
    let a = match ack {
        Some(a) => a,
        None => {
            return None;
        },
    };
    let from = match src {
        SocketAddr::V4 { .. } => {
            return None;
        },
        SocketAddr::V6(v6) => v6,
    };
    if a.kind != RelayKind::RegisterAck || !same_key(&a.self_key, self_key) || !same_key(
        &a.peer_key,
        peer_key,
    ) || a.port == 0 {
        return None;
    }
    Some(
        RelaySession {
            endpoint: SocketAddrV6::new(from.ip, a.port, 0, 0),
            control: normalize(from),
        },
    )
}

/// The endpoint and the control address of a session carry neither flow
/// information nor scope.
pub proof fn law_session_normalized(
    ack: Option<RelayFrame>,
    src: SocketAddr,
    self_key: [u8; 32],
    peer_key: [u8; 32],
)
    requires
        session_of(ack, src, self_key, peer_key) is Some,
    ensures
        ({
            let s = session_of(ack, src, self_key, peer_key)->Some_0;
            s.endpoint == candidates::normal(s.endpoint) && s.control == candidates::normal(
                s.control,
            )
        }),
{
}

/// What a relay answers to a registration opens a session at the port that the
/// relay gave the pair.
pub proof fn law_ack_opens_session(
    a: relay_server::Acknowledgement,
    m: relay_server::Sessions,
    self_key: [u8; 32],
    peer_key: [u8; 32],
    port: u16,
    now_unix: u64,
    from: SocketAddrV6,
)
    requires
        relay_server::acknowledges(
            a,
            m,
            register_frame_of(self_key, peer_key, port, now_unix),
            now_unix,
        ),
        a.frame.port != 0,
    ensures
        session_of(Some(a.frame), SocketAddr::V6(from), self_key, peer_key) == Some(
            RelaySession {
                endpoint: SocketAddrV6 {
                    ip: from.ip,
                    port: m[a.key@].port,
                    flowinfo: 0,
                    scope_id: 0,
                },
                control: candidates::normal(from),
            },
        ),
{
}

/// The question carries the node's own port and time, and the two keys in the
/// order in which they are asked for.
pub proof fn law_question_carries_all(
    self_key: [u8; 32],
    peer_key: [u8; 32],
    port: u16,
    now_unix: u64,
)
    ensures
        ({
            let f = register_frame_of(self_key, peer_key, port, now_unix);
            &&& f.kind == RelayKind::Register
            &&& f.port == port
            &&& f.seq == now_unix
            &&& f.self_key == self_key
            &&& f.peer_key == peer_key
        }),
{
}

/// An answer opens a session exactly when it is an acknowledgement for the two
/// keys, with a port, over IPv6. The session is at the address that answered,
/// at that port.
pub proof fn law_right_answer_opens_session(
    a: RelayFrame,
    src: SocketAddr,
    self_key: [u8; 32],
    peer_key: [u8; 32],
)
    ensures
        session_of(Some(a), src, self_key, peer_key) is Some <==> {
            &&& src is V6
            &&& a.kind == RelayKind::RegisterAck
            &&& a.self_key == self_key
            &&& a.peer_key == peer_key
            &&& a.port != 0
        },
        session_of(Some(a), src, self_key, peer_key) matches Some(s) ==> {
            &&& s.endpoint.ip == src->V6_0.ip
            &&& s.endpoint.port == a.port
            &&& s.endpoint.flowinfo == 0
            &&& s.endpoint.scope_id == 0
            &&& s.control.ip == src->V6_0.ip
            &&& s.control.port == src->V6_0.port
            &&& s.control.flowinfo == 0
            &&& s.control.scope_id == 0
        },
        session_of(None, src, self_key, peer_key) is None,
{
}

} // verus!
