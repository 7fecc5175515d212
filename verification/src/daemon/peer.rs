//! What the node keeps of each peer.

use crate::addr::{Ipv6Addr, SocketAddr, SocketAddrV6};
use crate::cache::{self, EndpointCache, EntryModel};
use crate::candidates::{self, build_candidates, normalize, CandidateSources, Source};
use crate::fsm::{FsmModel, PeerFsm, PunchState};
use crate::relay_client::RelaySession;
use crate::route::Ipv6Route;
use crate::seqs;
use crate::time::Instant;
use vstd::prelude::*;

verus! {

/// How often the node looks at its peers, in nanoseconds: 1 s.
pub const TICK: u64 = 1_000_000_000;

/// How long to wait for more when this node's addresses change, in
/// nanoseconds: 0.2 s.
pub const ADDR_DEBOUNCE: u64 = 200_000_000;

/// How many times all candidates are tried before a relay is used.
pub const RELAY_AFTER_ROUNDS: u32 = 2;

/// How long to wait after a failed registration, in nanoseconds: 60 s.
pub const RELAY_RETRY_COOLDOWN: u64 = 60_000_000_000;

/// How many times to try again to get from a relay to a direct connection.
pub const UPGRADE_MAX_RETRIES: u32 = 8;

/// The port that nudges are sent to; nobody listens there.
pub const NUDGE_PORT: u16 = 9;

/// The way to a peer over a relay.
#[derive(Debug)]
pub struct RelayLink {
    /// The name of the relay.
    pub via_name: String,
    /// Where the relay takes control frames.
    pub control: Vec<SocketAddrV6>,
    /// The peer's public key.
    pub peer_public: [u8; 32],
    /// The session, when there is one.
    pub session: Option<RelaySession>,
    /// Whether a registration is under way.
    pub pending: bool,
    /// Whether an attempt at a direct connection is under way.
    pub upgrade_pending: bool,
    /// How many times that attempt was repeated.
    pub upgrade_retries: u32,
    /// When the session was last opened or renewed.
    pub last_register: Option<Instant>,
    /// Until when to wait after a failed registration.
    pub retry_after: Option<Instant>,
}

/// What the node keeps of a peer.
#[derive(Debug)]
pub struct PeerRuntime {
    /// Its name.
    pub name: String,
    /// The base64 of its public key.
    pub key_b64: String,
    /// Its WireGuard key.
    pub wg_public: [u8; 32],
    /// Its overlay address.
    pub overlay: Ipv6Addr,
    /// Its configured endpoints.
    pub configured: Vec<SocketAddrV6>,
    /// The routes behind it.
    pub routes: Vec<Ipv6Route>,
    /// The name of its record.
    pub ddns: Option<String>,
    /// What the rendezvous layers report, in the order of the layers.
    pub discovered: Vec<(Source, SocketAddrV6)>,
    /// The way over a relay, when there is one.
    pub relay: Option<RelayLink>,
    /// Whether the node waits for traffic instead of starting handshakes.
    pub on_demand: bool,
    /// Its keepalive interval in seconds.
    pub keepalive: Option<u16>,
    /// Its punching state machine.
    pub fsm: PeerFsm,
}

/// What a [`RelayLink`] holds.
pub struct LinkModel {
    /// The name of the relay.
    pub via_name: Seq<char>,
    /// Where the relay takes control frames.
    pub control: Seq<SocketAddrV6>,
    /// The peer's public key.
    pub peer_public: [u8; 32],
    /// The session, when there is one.
    pub session: Option<RelaySession>,
    /// Whether a registration is under way.
    pub pending: bool,
    /// Whether an attempt at a direct connection is under way.
    pub upgrade_pending: bool,
    /// How many times that attempt was repeated.
    pub upgrade_retries: u32,
    /// When the session was last opened or renewed.
    pub last_register: Option<int>,
    /// Until when to wait after a failed registration.
    pub retry_after: Option<int>,
}

/// What a [`PeerRuntime`] holds.
pub struct PeerModel {
    /// Its name.
    pub name: Seq<char>,
    /// The base64 of its public key.
    pub key: Seq<char>,
    /// Its WireGuard key.
    pub wg_public: [u8; 32],
    /// Its overlay address.
    pub overlay: Ipv6Addr,
    /// Its configured endpoints.
    pub configured: Seq<SocketAddrV6>,
    /// The routes behind it.
    pub routes: Seq<Ipv6Route>,
    /// The name of its record.
    pub ddns: Option<Seq<char>>,
    /// What the rendezvous layers report.
    pub discovered: Seq<(Source, SocketAddrV6)>,
    /// The way over a relay, when there is one.
    pub relay: Option<LinkModel>,
    /// Whether the node waits for traffic instead of starting handshakes.
    pub on_demand: bool,
    /// Its keepalive interval in seconds.
    pub keepalive: Option<u16>,
    /// Its punching state machine.
    pub fsm: FsmModel,
}

/// The cache, as a map from keys to what is remembered.
pub type CacheModel = Map<Seq<char>, EntryModel>;

/// The reading of an optional clock.
pub open spec fn reading(t: Option<Instant>) -> Option<int> {
    match t {
        Some(x) => Some(x@),
        None => None,
    }
}

impl View for RelayLink {
    type V = LinkModel;

    open spec fn view(&self) -> LinkModel {
        LinkModel {
            via_name: self.via_name@,
            control: self.control@,
            peer_public: self.peer_public,
            session: self.session,
            pending: self.pending,
            upgrade_pending: self.upgrade_pending,
            upgrade_retries: self.upgrade_retries,
            last_register: reading(self.last_register),
            retry_after: reading(self.retry_after),
        }
    }
}

impl View for PeerRuntime {
    type V = PeerModel;

    open spec fn view(&self) -> PeerModel {
        PeerModel {
            name: self.name@,
            key: self.key_b64@,
            wg_public: self.wg_public,
            overlay: self.overlay,
            configured: self.configured@,
            routes: self.routes@,
            ddns: match self.ddns {
                Some(f) => Some(f@),
                None => None,
            },
            discovered: self.discovered@,
            relay: match self.relay {
                Some(l) => Some(l@),
                None => None,
            },
            on_demand: self.on_demand,
            keepalive: self.keepalive,
            fsm: self.fsm@,
        }
    }
}

/// The peers, each by what it holds.
pub open spec fn peer_models(s: Seq<PeerRuntime>) -> Seq<PeerModel> {
    s.map_values(|p: PeerRuntime| p@)
}

/// Whether the state machine of every peer is sound.
pub open spec fn all_wf(s: Seq<PeerRuntime>) -> bool {
    forall|i: int| 0 <= i < s.len() ==> (#[trigger] s[i])@.fsm.wf()
}

/// The position of the first peer with this key, the number of peers when
/// there is none.
pub open spec fn peer_index(s: Seq<PeerModel>, key: Seq<char>) -> int {
    seqs::first_where(s, |p: PeerModel| p.key == key)
}

impl PeerModel {
    /// The session at the relay, when there is one.
    pub open spec fn session(self) -> Option<RelaySession> {
        match self.relay {
            Some(l) => l.session,
            None => None,
        }
    }

    /// Where the relay takes packets for this peer.
    pub open spec fn session_endpoint(self) -> Option<SocketAddrV6> {
        match self.session() {
            Some(s) => Some(s.endpoint),
            None => None,
        }
    }

    /// Every direct endpoint of the peer in the order in which it is worth
    /// trying.
    pub open spec fn ranked(self, cache: CacheModel) -> Seq<SocketAddrV6> {
        let e = cache::remembered(cache, self.key);
        candidates::ranking(e.last_good, self.discovered, self.configured, e.seen)
    }

    /// Whether the peer is to be reached over the relay alone: there is a
    /// session and no attempt at a direct connection.
    pub open spec fn relay_only(self) -> bool {
        match self.relay {
            Some(l) => l.session is Some && !l.upgrade_pending,
            None => false,
        }
    }

    /// The candidates of the peer.
    ///
    /// On a relay both sides have to try the same candidate at the same time;
    /// mixed with direct candidates, which have all failed, they would keep
    /// missing each other. So the relay stands alone until there is news.
    pub open spec fn candidates(self, cache: CacheModel) -> Seq<SocketAddrV6> {
        if self.relay_only() {
            seq![self.session_endpoint()->Some_0]
        } else {
            candidates::shortlist(self.ranked(cache), self.session_endpoint())
        }
    }

    /// The endpoint of the relay, when the connection runs over it.
    pub open spec fn relayed_via(self) -> Option<SocketAddrV6> {
        match self.fsm.state {
            PunchState::Connected { endpoint } => if self.session_endpoint() == Some(endpoint) {
                Some(endpoint)
            } else {
                None
            },
            PunchState::Probing { .. } => None,
        }
    }
}

/// The endpoint that a device reports, normalized; an IPv4 one counts as none.
pub open spec fn v6_endpoint(endpoint: Option<SocketAddr>) -> Option<SocketAddrV6> {
    match endpoint {
        Some(SocketAddr::V6(v6)) => Some(candidates::normal(v6)),
        _ => None,
    }
}

/// The endpoint that a device reports, normalized; an IPv4 one counts as none.
pub fn kernel_endpoint(endpoint: Option<SocketAddr>) -> (ep: Option<SocketAddrV6>)
    ensures
        ep == v6_endpoint(endpoint),
{
    match endpoint {
        Some(SocketAddr::V6(v6)) => Some(normalize(v6)),
        _ => None,
    }
}

/// Where the candidates of a peer come from at the moment.
pub fn sources_for<'a>(peer: &'a PeerRuntime, cache: &'a EndpointCache) -> (s: CandidateSources<'a>)
    requires
        cache.wf(),
    ensures
        s.last_good == cache::remembered(cache@, peer@.key).last_good,
        s.discovered@ == peer@.discovered,
        s.configured@ == peer@.configured,
        s.cached@ == cache::remembered(cache@, peer@.key).seen,
        s.relay == peer@.session_endpoint(),
{
    let relay = match &peer.relay {
        Some(l) => match l.session {
            Some(s) => Some(s.endpoint),
            None => None,
        },
        None => None,
    };
    match cache.entry(peer.key_b64.as_str()) {
        Some(e) => CandidateSources {
            last_good: e.last_good,
            discovered: peer.discovered.as_slice(),
            configured: peer.configured.as_slice(),
            cached: e.seen.as_slice(),
            relay,
        },
        None => CandidateSources {
            last_good: None,
            discovered: peer.discovered.as_slice(),
            configured: peer.configured.as_slice(),
            cached: &[],
            relay,
        },
    }
}

/// The candidates of a peer at the moment: the relay alone while the peer is
/// reached over it, otherwise all direct ones, with the relay behind them
/// while an attempt at a direct connection is under way.
pub fn candidates_for(peer: &PeerRuntime, cache: &EndpointCache) -> (list: Vec<SocketAddrV6>)
    requires
        cache.wf(),
    ensures
        list@ == peer@.candidates(cache@),
{
    if let Some(link) = &peer.relay {
        if let Some(session) = link.session {
            if !link.upgrade_pending {
                let mut list: Vec<SocketAddrV6> = Vec::new();
                list.push(session.endpoint);
                assert(list@ =~= seq![session.endpoint]);
                return list;
            }
        }
    }
    build_candidates(&sources_for(peer, cache))
}

/// The endpoint of the relay, when the connection to the peer runs over it.
pub fn relayed_via_endpoint(peer: &PeerRuntime) -> (ep: Option<SocketAddrV6>)
    ensures
        ep == peer@.relayed_via(),
{
    let session = match &peer.relay {
        Some(l) => match l.session {
            Some(s) => s,
            None => {
                return None;
            },
        },
        None => {
            return None;
        },
    };
    match peer.fsm.state() {
        PunchState::Connected { endpoint } => if endpoint == session.endpoint {
            Some(endpoint)
        } else {
            None
        },
        PunchState::Probing { .. } => None,
    }
}

/// Finds the first peer with this key; the number of peers when there is none.
pub fn find_peer(peers: &[PeerRuntime], key: &String) -> (k: usize)
    ensures
        k == peer_index(peer_models(peers@), key@),
        k <= peers@.len(),
{
    let ghost models = peer_models(peers@);
    let ghost hit = |p: PeerModel| p.key == key@;
    let mut k: usize = 0;
    while k < peers.len() && peers[k].key_b64 != *key
        invariant
            k <= peers.len(),
            models == peer_models(peers@),
            hit == (|p: PeerModel| p.key == key@),
            forall|j: int| 0 <= j < k ==> !hit(#[trigger] models[j]),
        decreases peers.len() - k,
    {
        assert(!hit(models[k as int]));
        k = k + 1;
    }
    proof {
        if k < peers.len() {
            assert(hit(models[k as int]));
        }
        seqs::lemma_first_where_is(models, hit, k as int);
    }
    k
}

/// While an attempt at a direct connection is under way, the relay stays among
/// the candidates as the way back.
pub proof fn law_relay_kept_while_upgrading(p: PeerModel, cache: CacheModel)
    requires
        p.session() is Some,
    ensures
        p.candidates(cache).len() > 0,
        candidates::normals(p.candidates(cache)).contains(
            candidates::normal(p.session_endpoint()->Some_0),
        ),
{
    let r = p.session_endpoint()->Some_0;
    let list = p.candidates(cache);
    let n = candidates::normals(list);
    if p.relay_only() {
        assert(n[0] == candidates::normal(r));
    } else {
        candidates::law_relay_kept(p.ranked(cache), r);
        candidates::law_candidates_bounded_and_distinct(p.ranked(cache), Some(r));
        let k = choose|k: int| 0 <= k < list.len() && list[k] == candidates::normal(r);
        assert(n[k] == candidates::normal(r));
    }
}

/// Without a session no relay is among the candidates: each is a direct one.
pub proof fn law_no_session_no_relay(p: PeerModel, cache: CacheModel, ep: SocketAddrV6)
    requires
        p.session() is None,
        p.candidates(cache).contains(ep),
    ensures
        candidates::normals(p.ranked(cache)).contains(ep),
{
    candidates::law_candidates_bounded_and_distinct(p.ranked(cache), None);
}

/// A connection runs over the relay exactly when it is at the endpoint of the
/// session.
pub proof fn law_runs_over_relay(p: PeerModel, ep: SocketAddrV6)
    ensures
        p.relayed_via() == Some(ep) <==> {
            &&& p.fsm.state == (PunchState::Connected { endpoint: ep })
            &&& p.relay is Some
            &&& p.relay->Some_0.session is Some
            &&& p.relay->Some_0.session->Some_0.endpoint == ep
        },
{
}

/// On a relay session, and without an attempt at a direct connection, the relay
/// is the only candidate.
pub proof fn law_relay_stands_alone(p: PeerModel, cache: CacheModel)
    requires
        p.relay is Some,
        p.relay->Some_0.session is Some,
        !p.relay->Some_0.upgrade_pending,
    ensures
        p.candidates(cache) == seq![p.relay->Some_0.session->Some_0.endpoint],
{
}

/// Otherwise whatever is reported, configured or remembered of the peer is a
/// candidate while there is room, and the relay too, when there is a session.
pub proof fn law_peer_candidates_come_from_everywhere(p: PeerModel, cache: CacheModel, i: int)
    requires
        p.relay is None || p.relay->Some_0.session is None || p.relay->Some_0.upgrade_pending,
        p.discovered.len() + p.configured.len() + cache::remembered(cache, p.key).seen.len() <= 6,
    ensures
        ({
            let list = p.candidates(cache);
            let e = cache::remembered(cache, p.key);
            &&& 0 <= i < p.discovered.len() ==> list.contains(
                candidates::normal(p.discovered[i].1),
            )
            &&& 0 <= i < p.configured.len() ==> list.contains(candidates::normal(p.configured[i]))
            &&& 0 <= i < e.seen.len() ==> list.contains(candidates::normal(e.seen[i].endpoint))
            &&& e.last_good matches Some(g) ==> list.len() > 0 && list[0] == candidates::normal(g)
            &&& p.relay is Some && p.relay->Some_0.session is Some ==> list.contains(
                candidates::normal(p.relay->Some_0.session->Some_0.endpoint),
            )
        }),
{
    let e = cache::remembered(cache, p.key);
    candidates::law_every_source_is_tried(
        e.last_good,
        p.discovered,
        p.configured,
        e.seen,
        p.session_endpoint(),
        i,
    );
    if e.last_good is Some {
        candidates::law_last_good_first(
            e.last_good->Some_0,
            p.discovered,
            p.configured,
            e.seen,
            p.session_endpoint(),
        );
    }
}

/// Nothing is a candidate of a peer but what is reported, configured or
/// remembered of it, and its relay.
pub proof fn law_peer_candidates_come_from_nowhere_else(
    p: PeerModel,
    cache: CacheModel,
    ep: SocketAddrV6,
)
    requires
        p.candidates(cache).contains(ep),
    ensures
        ({
            let e = cache::remembered(cache, p.key);
            ||| e.last_good is Some && candidates::normal(e.last_good->Some_0) == ep
            ||| exists|i: int|
                0 <= i < p.discovered.len() && candidates::normal((#[trigger] p.discovered[i]).1)
                    == ep
            ||| exists|i: int|
                0 <= i < p.configured.len() && candidates::normal(#[trigger] p.configured[i]) == ep
            ||| exists|i: int|
                0 <= i < e.seen.len() && candidates::normal((#[trigger] e.seen[i]).endpoint) == ep
            ||| p.relay is Some && p.relay->Some_0.session is Some && (
            p.relay->Some_0.session->Some_0.endpoint == ep || candidates::normal(
                p.relay->Some_0.session->Some_0.endpoint,
            ) == ep)
        }),
{
    let e = cache::remembered(cache, p.key);
    let ranked = p.ranked(cache);
    if p.relay_only() {
        assert(p.candidates(cache)[0] == p.session_endpoint()->Some_0);
    } else {
        candidates::law_candidates_bounded_and_distinct(ranked, p.session_endpoint());
        if candidates::normals(ranked).contains(ep) {
            let n = candidates::normals(ranked);
            let k = choose|k: int| 0 <= k < n.len() && n[k] == ep;
            let raw = ranked[k];
            assert(ranked.contains(raw));
            assert(candidates::normal(raw) == ep);
            candidates::law_every_source_is_ranked(
                e.last_good,
                p.discovered,
                p.configured,
                e.seen,
                raw,
            );
        }
    }
}

/// The endpoint that a device reports counts when it is an IPv6 one, with flow
/// information and scope cleared.
pub proof fn law_device_endpoint(endpoint: Option<SocketAddr>, v6: SocketAddrV6)
    ensures
        endpoint == Some(SocketAddr::V6(v6)) ==> v6_endpoint(endpoint) == Some(
            candidates::normal(v6),
        ),
        endpoint is None ==> v6_endpoint(endpoint) is None,
        endpoint is Some && endpoint->Some_0 is V4 ==> v6_endpoint(endpoint) is None,
{
}

/// A peer is found by its key: the first one that has it, and none only when
/// none has it.
pub proof fn law_peer_found_by_key(s: Seq<PeerModel>, key: Seq<char>, i: int)
    ensures
        0 <= peer_index(s, key) <= s.len(),
        peer_index(s, key) < s.len() ==> s[peer_index(s, key)].key == key,
        0 <= i < s.len() && s[i].key == key ==> peer_index(s, key) <= i,
{
    let hit = |p: PeerModel| p.key == key;
    seqs::lemma_first_where(s, hit);
    if 0 <= i < peer_index(s, key) {
        assert(!hit(s[i]));
    }
}

} // verus!
