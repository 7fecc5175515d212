//! Control frames of the relay protocol, decoded.

use crate::keys::{self, comes_before, same_key};
use crate::table::TableKey;
use vstd::prelude::*;

verus! {

/// What a control frame asks for.
#[derive(Clone, Copy, PartialEq, Eq, Debug, Structural)]
pub enum RelayKind {
    /// Open a session, or renew it.
    Register,
    /// The session is there.
    RegisterAck,
    /// Close a session.
    Unregister,
}

/// A control frame whose authentication was checked.
#[derive(Clone, Copy, Debug)]
pub struct RelayFrame {
    /// What the frame asks for.
    pub kind: RelayKind,
    /// The sender's WireGuard port; in an acknowledgement the session's port.
    pub port: u16,
    /// When the frame was made, in Unix seconds.
    pub seq: u64,
    /// The key of the node that registers.
    pub self_key: [u8; 32],
    /// The key of the node that it wants to reach.
    pub peer_key: [u8; 32],
}

/// The keys of the two sides of a session, the smaller first.
pub type SessionKey = [[u8; 32]; 2];

impl TableKey for SessionKey {
    fn same_as(&self, other: &SessionKey) -> (same: bool) {
        let same = same_key(&self[0], &other[0]) && same_key(&self[1], &other[1]);
        proof {
            if same {
                assert(self@ =~= other@);
            } else {
                assert(self@[0] != other@[0] || self@[1] != other@[1]);
            }
        }
        same
    }
}

/// The key of the session between two nodes.
pub open spec fn session_key(a: [u8; 32], b: [u8; 32]) -> Seq<[u8; 32]> {
    if keys::key_before(b, a) {
        seq![b, a]
    } else {
        seq![a, b]
    }
}

/// Which side of its session the node with key `a` is on.
pub open spec fn session_side(a: [u8; 32], key: Seq<[u8; 32]>) -> int {
    if a == key[0] {
        0
    } else {
        1
    }
}

/// The key of the session between two nodes, whichever is named first.
pub fn session_key_of(a: &[u8; 32], b: &[u8; 32]) -> (key: SessionKey)
    ensures
        key@ == session_key(*a, *b),
{
    let key: SessionKey = if comes_before(b, a) {
        [*b, *a]
    } else {
        [*a, *b]
    };
    assert(key@ =~= session_key(*a, *b));
    key
}

impl RelayFrame {
    /// The key of the session that the frame speaks of.
    pub open spec fn key(self) -> Seq<[u8; 32]> {
        session_key(self.self_key, self.peer_key)
    }

    /// The key of the session that the frame speaks of.
    pub fn session_key(&self) -> (key: SessionKey)
        ensures
            key@ == self.key(),
    {
        session_key_of(&self.self_key, &self.peer_key)
    }
}

/// Both nodes of a pair name the same session.
pub proof fn law_session_key_symmetric(a: [u8; 32], b: [u8; 32])
    ensures
        session_key(a, b) == session_key(b, a),
{
    keys::lemma_key_order(a, b);
    if a == b {
        assert(seq![a, b] =~= seq![b, a]);
    }
}

/// Two different nodes are on different sides of their session.
pub proof fn law_session_sides_differ(a: [u8; 32], b: [u8; 32])
    requires
        a != b,
    ensures
        session_side(a, session_key(a, b)) != session_side(b, session_key(a, b)),
{
}

/// Sessions of different pairs are different sessions.
pub proof fn law_session_key_injective(a: [u8; 32], b: [u8; 32], c: [u8; 32], d: [u8; 32])
    requires
        session_key(a, b) == session_key(c, d),
    ensures
        (a == c && b == d) || (a == d && b == c),
{
    let x = session_key(a, b);
    let y = session_key(c, d);
    assert(x[0] == y[0] && x[1] == y[1]);
}

/// The key of a session names both nodes, and each node is on the side at which
/// its key stands.
pub proof fn law_session_key_names_both(a: [u8; 32], b: [u8; 32])
    ensures
        session_key(a, b).len() == 2,
        session_key(a, b).contains(a),
        session_key(a, b).contains(b),
        session_side(a, session_key(a, b)) == 0 || session_side(a, session_key(a, b)) == 1,
        session_key(a, b)[session_side(a, session_key(a, b))] == a,
        session_key(a, b)[session_side(b, session_key(a, b))] == b,
{
    let k = session_key(a, b);
    if keys::key_before(b, a) {
        assert(k[0] == b && k[1] == a);
    } else {
        assert(k[0] == a && k[1] == b);
    }
}

} // verus!
