//! What the node does every second.

use super::discovery;
use super::effects::{self, apply_actions, Effect, EffectModel};
use super::peer::{self, kernel_endpoint, sources_for, CacheModel, PeerModel, PeerRuntime};
use super::relaying::{self, drive_relay, RelayCommand};
use crate::addr::{Ipv6Addr, SocketAddrV6};
use crate::cache::{self, EndpointCache};
use crate::candidates::Source;
use crate::fsm::{self, Action, Observation, PunchState};
use crate::keys::same_key;
use crate::route::Ipv6Route;
use crate::route_manager::{self, RouteManager};
use crate::seqs;
use crate::state::{self, endpoint_source, unix_secs, EngineState, PeerState};
use crate::status::{self, secs_since};
use crate::time::{Instant, SystemTime};
use crate::wg::types::PeerStatus;
use vstd::prelude::*;

verus! {

/// What a tick asks for on behalf of one peer.
#[derive(Debug)]
pub struct PeerTick {
    /// The effects.
    pub effects: Vec<Effect>,
    /// What to do about the peer's relay.
    pub command: RelayCommand,
}

/// What came of a tick.
#[derive(Debug)]
pub struct TickOutcome {
    /// What it asks for, peer by peer.
    pub peers: Vec<PeerTick>,
    /// Whether a connection came up or moved.
    pub any_connected: bool,
}

/// The last status that a device reports under a key.
pub open spec fn status_of(s: Seq<PeerStatus>, wg_public: [u8; 32]) -> Option<PeerStatus>
    decreases s.len(),
{
    if s.len() == 0 {
        None
    } else if s.last().wg_public == wg_public {
        Some(s.last())
    } else {
        status_of(s.drop_last(), wg_public)
    }
}

/// What the state machine gets to see of a status.
pub open spec fn observed(s: Option<PeerStatus>) -> Observation {
    match s {
        Some(x) => Observation {
            last_handshake: x.last_handshake,
            kernel_endpoint: peer::v6_endpoint(x.endpoint),
        },
        None => Observation { last_handshake: None, kernel_endpoint: None },
    }
}

/// Whether some action says that an endpoint works.
pub open spec fn marks_good(actions: Seq<Action>) -> bool {
    exists|i: int| 0 <= i < actions.len() && (#[trigger] actions[i]) is MarkGood
}

/// What a tick does to one peer and the cache.
pub struct PeerTicked {
    /// The peer.
    pub peer: PeerModel,
    /// The cache.
    pub cache: CacheModel,
    /// The effects.
    pub effects: Seq<EffectModel>,
    /// What to do about the relay.
    pub command: RelayCommand,
    /// Whether a connection came up or moved.
    pub connected: bool,
}

/// What a tick does to one peer and the cache: first the state machine looks
/// at the device, then the relay is looked at.
pub open spec fn peer_ticked(
    p: PeerModel,
    c: CacheModel,
    status: Option<PeerStatus>,
    now: int,
    wall: int,
) -> PeerTicked {
    let secs = state::seconds(wall) as u64;
    let (f, first) = p.fsm.ticked(wall, observed(status));
    let p1 = PeerModel { fsm: f, ..p };
    let (c1, e1) = effects::all_performed(p1, c, first, secs);
    let (p2, second, command) = relaying::driven(p1, c1, now, wall);
    let (c2, e2) = effects::all_performed(p2, c1, second, secs);
    PeerTicked {
        peer: p2,
        cache: c2,
        effects: e1 + e2,
        command,
        connected: marks_good(first),
    }
}

/// What a tick does to all peers and the cache, one after the other.
pub struct AllTicked {
    /// The peers.
    pub peers: Seq<PeerModel>,
    /// The cache.
    pub cache: CacheModel,
    /// The effects, peer by peer.
    pub effects: Seq<Seq<EffectModel>>,
    /// What to do about the relays, peer by peer.
    pub commands: Seq<RelayCommand>,
    /// Whether a connection came up or moved.
    pub connected: bool,
}

/// What a tick does to all peers and the cache, one after the other.
pub open spec fn all_ticked(
    s: Seq<PeerModel>,
    c: CacheModel,
    statuses: Seq<PeerStatus>,
    now: int,
    wall: int,
) -> AllTicked
    decreases s.len(),
{
    if s.len() == 0 {
        AllTicked {
            peers: seq![],
            cache: c,
            effects: seq![],
            commands: seq![],
            connected: false,
        }
    } else {
        let before = all_ticked(s.drop_last(), c, statuses, now, wall);
        let last = peer_ticked(
            s.last(),
            before.cache,
            status_of(statuses, s.last().wg_public),
            now,
            wall,
        );
        AllTicked {
            peers: before.peers.push(last.peer),
            cache: last.cache,
            effects: before.effects.push(last.effects),
            commands: before.commands.push(last.command),
            connected: before.connected || last.connected,
        }
    }
}

/// The last status that a device reports under a key.
pub fn find_status(statuses: &[PeerStatus], wg_public: &[u8; 32]) -> (s: Option<PeerStatus>)
    ensures
        s == status_of(statuses@, *wg_public),
{
    let mut i: usize = statuses.len();
    assert(statuses@.take(i as int) =~= statuses@);
    while i > 0
        invariant
            i <= statuses.len(),
            status_of(statuses@, *wg_public) == status_of(statuses@.take(i as int), *wg_public),
        decreases i,
    {
        i = i - 1;
        assert(statuses@.take(i + 1).last() == statuses@[i as int]);
        assert(statuses@.take(i + 1).drop_last() =~= statuses@.take(i as int));
        if same_key(&statuses[i].wg_public, wg_public) {
            return Some(statuses[i]);
        }
    }
    None
}

fn has_mark_good(actions: &[Action]) -> (yes: bool)
    ensures
        yes == marks_good(actions@),
{
    let mut i: usize = 0;
    while i < actions.len()
        invariant
            i <= actions.len(),
            forall|j: int| 0 <= j < i ==> !((#[trigger] actions@[j]) is MarkGood),
        decreases actions.len() - i,
    {
        if let Action::MarkGood(_) = actions[i] {
            assert(actions@[i as int] is MarkGood);
            return true;
        }
        i = i + 1;
    }
    false
}

/// Does what has to be done for one peer every second: lets its state machine
/// look at the device, and looks at its relay.
pub fn tick_peer(
    peer: &mut PeerRuntime,
    cache: &mut EndpointCache,
    status: Option<PeerStatus>,
    now: Instant,
    wall: SystemTime,
) -> (out: (PeerTick, bool))
    requires
        old(cache).wf(),
        old(peer)@.fsm.wf(),
    ensures
        final(cache).wf(),
        final(cache).version == old(cache).version,
        final(peer)@.fsm.wf(),
        (PeerTicked {
            peer: final(peer)@,
            cache: final(cache)@,
            effects: effects::effect_models(out.0.effects@),
            command: out.0.command,
            connected: out.1,
        }) == peer_ticked(old(peer)@, old(cache)@, status, now@, wall@),
{
    let obs = match status {
        Some(s) => Observation {
            last_handshake: s.last_handshake,
            kernel_endpoint: kernel_endpoint(s.endpoint),
        },
        None => Observation { last_handshake: None, kernel_endpoint: None },
    };
    let secs = unix_secs(wall);
    let first = peer.fsm.tick(wall, obs);
    let connected = has_mark_good(first.as_slice());
    let mut out = apply_actions(cache, peer, first.as_slice(), secs);
    let ghost head = effects::effect_models(out@);
    let drive = drive_relay(peer, cache, now, wall);
    let mut more = apply_actions(cache, peer, drive.actions.as_slice(), secs);
    let ghost tail = effects::effect_models(more@);
    out.append(&mut more);
    assert(effects::effect_models(out@) =~= head + tail);
    (PeerTick { effects: out, command: drive.command }, connected)
}

/// Does what has to be done every second for every peer, given what the device
/// reports.
pub fn tick_once(
    peers: &mut Vec<PeerRuntime>,
    cache: &mut EndpointCache,
    statuses: &[PeerStatus],
    now: Instant,
    wall: SystemTime,
) -> (out: TickOutcome)
    requires
        old(cache).wf(),
        peer::all_wf(old(peers)@),
    ensures
        final(cache).wf(),
        final(cache).version == old(cache).version,
        peer::all_wf(final(peers)@),
        ({
            let t = all_ticked(
                peer::peer_models(old(peers)@),
                old(cache)@,
                statuses@,
                now@,
                wall@,
            );
            &&& peer::peer_models(final(peers)@) == t.peers
            &&& final(cache)@ == t.cache
            &&& out.any_connected == t.connected
            &&& out.peers@.len() == t.effects.len()
            &&& t.effects.len() == t.commands.len()
            &&& forall|i: int|
                0 <= i < out.peers@.len() ==> effects::effect_models(
                    (#[trigger] out.peers@[i]).effects@,
                ) == t.effects[i] && out.peers@[i].command == t.commands[i]
        }),
{
    let ghost all = peer::peer_models(peers@);
    let ghost start = cache@;
    let n = peers.len();
    let mut ticks: Vec<PeerTick> = Vec::new();
    let mut any_connected = false;
    let mut i: usize = 0;
    proof {
        assert(all.take(0) =~= seq![]);
        assert(peer::peer_models(peers@).take(0) =~= seq![]);
        assert(peer::peer_models(peers@).skip(0) =~= all.skip(0));
    }
    while i < n
        invariant
            i <= n,
            n == peers.len(),
            n == all.len(),
            cache.wf(),
            cache.version == old(cache).version,
            peer::all_wf(peers@),
            peer::peer_models(peers@).skip(i as int) == all.skip(i as int),
            ({
                let t = all_ticked(all.take(i as int), start, statuses@, now@, wall@);
                &&& peer::peer_models(peers@).take(i as int) == t.peers
                &&& cache@ == t.cache
                &&& any_connected == t.connected
                &&& ticks.len() == i
                &&& t.effects.len() == i
                &&& t.commands.len() == i
                &&& forall|j: int|
                    0 <= j < i ==> effects::effect_models((#[trigger] ticks@[j]).effects@)
                        == t.effects[j] && ticks@[j].command == t.commands[j]
            }),
        decreases n - i,
    {
        let ghost before = peer::peer_models(peers@);
        proof {
            assert(all.take(i + 1).drop_last() =~= all.take(i as int));
            assert(before.skip(i as int)[0] == all.skip(i as int)[0]);
            assert(before[i as int] == all[i as int]);
            assert(peers@[i as int]@ == all[i as int]);
        }
        let status = find_status(statuses, &peers[i].wg_public);
        let (tick, connected) = tick_peer(&mut peers[i], cache, status, now, wall);
        proof {
            let after = peer::peer_models(peers@);
            assert(after =~= before.update(i as int, peers@[i as int]@));
            assert(after.take(i + 1) =~= before.take(i as int).push(peers@[i as int]@));
            assert(after.skip(i + 1) =~= before.skip(i as int).skip(1));
            assert(all.skip(i as int).skip(1) =~= all.skip(i + 1));
        }
        any_connected = any_connected || connected;
        ticks.push(tick);
        i = i + 1;
    }
    proof {
        assert(all.take(i as int) =~= all);
        assert(peer::peer_models(peers@).take(i as int) =~= peer::peer_models(peers@));
    }
    TickOutcome { peers: ticks, any_connected }
}

/// The routes that should be installed for a peer.
pub open spec fn wanted_routes(p: PeerModel) -> Seq<Ipv6Route> {
    match p.fsm.state {
        PunchState::Connected { .. } => p.routes,
        PunchState::Probing { .. } => seq![],
    }
}

/// The routes that should be installed for a peer: those behind it while it is
/// connected, none otherwise.
pub fn desired_routes(peer: &PeerRuntime) -> (routes: &[Ipv6Route])
    ensures
        routes@ == if peer@.fsm.state is Connected {
            peer@.routes
        } else {
            seq![]
        },
        routes@ == wanted_routes(peer@),
{
    match peer.fsm.state() {
        PunchState::Connected { .. } => peer.routes.as_slice(),
        PunchState::Probing { .. } => &[],
    }
}

/// The name of what the node is doing about a peer: `relayed` when the
/// connection runs over a relay, which is never passed off as a direct one.
pub open spec fn punch_name(p: PeerModel) -> Seq<char> {
    match p.fsm.state {
        PunchState::Connected { .. } => if p.relayed_via() is Some {
            "relayed"@
        } else {
            "connected"@
        },
        PunchState::Probing { .. } => "probing"@,
    }
}

/// Whether `s` shows what the node is doing about the peer `p`.
pub open spec fn shows_peer(
    s: PeerState,
    p: PeerModel,
    c: CacheModel,
    installed: Map<Seq<char>, Seq<Ipv6Route>>,
    status: Option<PeerStatus>,
    wall: int,
) -> bool {
    let e = cache::remembered(c, p.key);
    &&& s.name@ == p.name
    &&& s.public_key@ == p.key
    &&& s.address == p.overlay
    &&& s.punch_state@ == punch_name(p)
    &&& s.endpoint == p.fsm.current()
    &&& s.endpoint_source@ == state::explanation(
        p.fsm.current(),
        p.session_endpoint(),
        p.configured,
        p.discovered,
        e.seen,
    )
    &&& s.lan_endpoints == discovery::of_layer(p.discovered, Source::Lan).len()
    &&& s.gossip_endpoints == discovery::of_layer(p.discovered, Source::Gossip).len()
    &&& s.ddns_endpoints == discovery::of_layer(p.discovered, Source::Ddns).len()
    &&& status::text_opt(s.relay_via) == (if p.relayed_via() is Some {
        Some(p.relay->Some_0.via_name)
    } else {
        None
    })
    &&& s.routes@ == route_manager::installed_for(installed, p.key)
    &&& s.last_handshake_secs == (match status {
        Some(x) => status::seconds_since(x.last_handshake, wall),
        None => None,
    })
    &&& s.rx_bytes == (match status {
        Some(x) => x.rx_bytes,
        None => 0,
    })
    &&& s.tx_bytes == (match status {
        Some(x) => x.tx_bytes,
        None => 0,
    })
    &&& s.candidates == p.fsm.candidates.len()
    &&& match p.fsm.state {
        PunchState::Probing { candidate_index, rounds } => s.candidate_index == candidate_index
            && s.rounds == rounds,
        PunchState::Connected { .. } => s.candidate_index == 0 && s.rounds == 0,
    }
}

fn count_layer(reports: &[(Source, SocketAddrV6)], layer: Source) -> (n: usize)
    ensures
        n == discovery::of_layer(reports@, layer).len(),
{
    let mut n: usize = 0;
    let mut i: usize = 0;
    proof {
        reveal(Seq::filter);
        assert(reports@.take(0) =~= seq![]);
    }
    while i < reports.len()
        invariant
            i <= reports.len(),
            n <= i,
            n == reports@.take(i as int).filter(discovery::is_from(layer)).len(),
        decreases reports.len() - i,
    {
        proof {
            assert(reports@.take(i + 1) =~= reports@.take(i as int).push(reports@[i as int]));
            seqs::lemma_filter_push(
                reports@.take(i as int),
                reports@[i as int],
                discovery::is_from(layer),
            );
        }
        if reports[i].0 == layer {
            n = n + 1;
        }
        i = i + 1;
    }
    assert(reports@.take(i as int) =~= reports@);
    n
}

/// What the node is doing about a peer, as shown to the outside.
pub fn peer_state_of(
    peer: &PeerRuntime,
    cache: &EndpointCache,
    route_mgr: &RouteManager,
    status: Option<PeerStatus>,
    wall: SystemTime,
) -> (s: PeerState)
    requires
        cache.wf(),
        route_mgr.wf(),
    ensures
        shows_peer(s, peer@, cache@, route_mgr@, status, wall@),
{
    let sources = sources_for(peer, cache);
    let relayed = peer::relayed_via_endpoint(peer).is_some();
    let (punch_state, candidate_index, rounds): (&str, usize, u32) = match peer.fsm.state() {
        PunchState::Connected { .. } => if relayed {
            ("relayed", 0, 0)
        } else {
            ("connected", 0, 0)
        },
        PunchState::Probing { candidate_index, rounds } => ("probing", candidate_index, rounds),
    };
    let endpoint = peer.fsm.current_candidate();
    let relay_via = if relayed {
        match &peer.relay {
            Some(l) => Some(l.via_name.clone()),
            None => None,
        }
    } else {
        None
    };
    let (last_handshake, rx_bytes, tx_bytes): (Option<SystemTime>, u64, u64) = match status {
        Some(x) => (x.last_handshake, x.rx_bytes, x.tx_bytes),
        None => (None, 0, 0),
    };
    PeerState {
        name: peer.name.clone(),
        public_key: peer.key_b64.clone(),
        address: peer.overlay,
        punch_state: punch_state.to_owned(),
        endpoint,
        endpoint_source: endpoint_source(endpoint, &sources).to_owned(),
        lan_endpoints: count_layer(peer.discovered.as_slice(), Source::Lan),
        gossip_endpoints: count_layer(peer.discovered.as_slice(), Source::Gossip),
        ddns_endpoints: count_layer(peer.discovered.as_slice(), Source::Ddns),
        relay_via,
        routes: vstd::slice::slice_to_vec(route_mgr.routes_of(peer.key_b64.as_str())),
        last_handshake_secs: secs_since(last_handshake, wall),
        rx_bytes,
        tx_bytes,
        candidates: peer.fsm.candidates_len(),
        candidate_index,
        rounds,
    }
}

/// What the node is doing, as shown to the outside.
pub fn engine_state(
    peers: &[PeerRuntime],
    cache: &EndpointCache,
    route_mgr: &RouteManager,
    statuses: &[PeerStatus],
    interface: &str,
    node_address: Ipv6Addr,
    node_public_key: &str,
    wall: SystemTime,
) -> (s: EngineState)
    requires
        cache.wf(),
        route_mgr.wf(),
    ensures
        s.version == state::STATE_VERSION,
        s.updated_unix == state::seconds(wall@),
        s.interface@ == interface@,
        s.node_address == node_address,
        s.node_public_key@ == node_public_key@,
        s.peers@.len() == peers@.len(),
        forall|i: int|
            0 <= i < peers@.len() ==> shows_peer(
                #[trigger] s.peers@[i],
                peers@[i]@,
                cache@,
                route_mgr@,
                status_of(statuses@, peers@[i]@.wg_public),
                wall@,
            ),
{
    let mut shown: Vec<PeerState> = Vec::new();
    let mut i: usize = 0;
    while i < peers.len()
        invariant
            i <= peers.len(),
            shown.len() == i,
            cache.wf(),
            route_mgr.wf(),
            forall|j: int|
                0 <= j < i ==> shows_peer(
                    #[trigger] shown@[j],
                    peers@[j]@,
                    cache@,
                    route_mgr@,
                    status_of(statuses@, peers@[j]@.wg_public),
                    wall@,
                ),
        decreases peers.len() - i,
    {
        let status = find_status(statuses, &peers[i].wg_public);
        shown.push(peer_state_of(&peers[i], cache, route_mgr, status, wall));
        i = i + 1;
    }
    EngineState {
        version: state::STATE_VERSION,
        updated_unix: unix_secs(wall),
        interface: interface.to_owned(),
        node_address,
        node_public_key: node_public_key.to_owned(),
        peers: shown,
    }
}

/// A connection over a relay is always shown as such, with the relay's name.
pub proof fn law_relayed_never_shown_as_direct(
    s: PeerState,
    p: PeerModel,
    c: CacheModel,
    installed: Map<Seq<char>, Seq<Ipv6Route>>,
    status: Option<PeerStatus>,
    wall: int,
)
    requires
        shows_peer(s, p, c, installed, status, wall),
        p.relayed_via() is Some,
    ensures
        s.punch_state@ == "relayed"@,
        s.relay_via is Some,
        s.endpoint == p.relayed_via(),
{
}

/// A tick touches no peer's identity: keys, addresses, routes and what the
/// rendezvous layers reported stay as they were.
pub proof fn law_tick_keeps_identity(
    p: PeerModel,
    c: CacheModel,
    status: Option<PeerStatus>,
    now: int,
    wall: int,
)
    ensures
        ({
            let q = peer_ticked(p, c, status, now, wall).peer;
            q == (PeerModel { relay: q.relay, fsm: q.fsm, ..p })
        }),
{
}

/// The status of a peer is the last one reported under its key, and there is
/// none only when none is reported under it.
pub proof fn law_last_status_counts(s: Seq<PeerStatus>, wg_public: [u8; 32], k: int)
    requires
        0 <= k < s.len(),
        s[k].wg_public == wg_public,
        forall|j: int| k < j < s.len() ==> (#[trigger] s[j]).wg_public != wg_public,
    ensures
        status_of(s, wg_public) == Some(s[k]),
    decreases s.len(),
{
    if k < s.len() - 1 {
        assert(s[s.len() - 1].wg_public != wg_public);
        let rest = s.drop_last();
        assert forall|j: int| k < j < rest.len() implies (#[trigger] rest[j]).wg_public
            != wg_public by {
            assert(s[j].wg_public != wg_public);
        }
        law_last_status_counts(rest, wg_public, k);
    }
}

/// A peer that the device does not report has no status.
pub proof fn law_unreported_has_no_status(s: Seq<PeerStatus>, wg_public: [u8; 32])
    requires
        forall|j: int| 0 <= j < s.len() ==> (#[trigger] s[j]).wg_public != wg_public,
    ensures
        status_of(s, wg_public) is None,
    decreases s.len(),
{
    if s.len() > 0 {
        let rest = s.drop_last();
        assert(s[s.len() - 1].wg_public != wg_public);
        assert forall|j: int| 0 <= j < rest.len() implies (#[trigger] rest[j]).wg_public
            != wg_public by {
            assert(s[j].wg_public != wg_public);
        }
        law_unreported_has_no_status(rest, wg_public);
    }
}

/// The state machine sees the handshake and the IPv6 endpoint of the status, and
/// nothing without one.
pub proof fn law_device_is_observed(s: Option<PeerStatus>, v6: SocketAddrV6)
    ensures
        s is None ==> observed(s).last_handshake is None && observed(s).kernel_endpoint is None,
        s matches Some(x) ==> observed(s).last_handshake == x.last_handshake,
        s is Some && s->Some_0.endpoint == Some(crate::addr::SocketAddr::V6(v6)) ==> observed(
            s,
        ).kernel_endpoint == Some(crate::candidates::normal(v6)),
        s is Some && s->Some_0.endpoint is None ==> observed(s).kernel_endpoint is None,
{
}

/// A tick counts as a connection exactly when the state machine connects, or its
/// connection moves.
pub proof fn law_connection_is_noticed(
    p: PeerModel,
    c: CacheModel,
    status: Option<PeerStatus>,
    now: int,
    wall: int,
)
    ensures
        ({
            let after = p.fsm.ticked(wall, observed(status)).0.state;
            peer_ticked(p, c, status, now, wall).connected <==> after is Connected && after
                != p.fsm.state
        }),
{
    let (m1, actions) = p.fsm.ticked(wall, observed(status));
    if m1.state is Connected && m1.state != p.fsm.state {
        assert(actions[0] is MarkGood);
    }
}

/// A fresh handshake that the device reports at an endpoint makes a connection
/// there, and makes the cache remember it, unless it is the relay's.
pub proof fn law_tick_connects(
    p: PeerModel,
    c: CacheModel,
    status: PeerStatus,
    v6: SocketAddrV6,
    now: int,
    wall: int,
)
    requires
        p.fsm.wf(),
        p.fsm.state is Probing,
        status.last_handshake is Some,
        wall - status.last_handshake->Some_0@ < 180_000_000_000,
        status.endpoint == Some(crate::addr::SocketAddr::V6(v6)),
        p.relay is None,
    ensures
        ({
            let t = peer_ticked(p, c, Some(status), now, wall);
            let ep = crate::candidates::normal(v6);
            &&& t.peer.fsm.state == (PunchState::Connected { endpoint: ep })
            &&& t.connected
            &&& t.effects == seq![EffectModel::SaveCache]
            &&& t.cache.dom().contains(p.key)
            &&& t.cache[p.key].last_good == Some(ep)
            &&& t.command == RelayCommand::Nothing
        }),
{
    let ep = crate::candidates::normal(v6);
    let obs = observed(Some(status));
    fsm::law_handshake_connects(p.fsm, wall, obs);
    crate::candidates::law_normalize_idempotent(v6);
    let (f, first) = p.fsm.ticked(wall, obs);
    let p1 = PeerModel { fsm: f, ..p };
    let secs = state::seconds(wall) as u64;
    effects::law_actions_in_order(p1, c, seq![], first, secs);
    assert(first =~= seq![Action::MarkGood(ep)]);
    assert(first[0] is MarkGood);
    effects::law_direct_success_is_remembered(p1, c, ep, secs, p.key);
    let (c1, e1) = effects::all_performed(p1, c, first, secs);
    assert(e1 =~= seq![EffectModel::SaveCache]);
    assert(e1 + Seq::<EffectModel>::empty() =~= e1);
}

/// Every peer gets its own tick, with its own status, in order: what a tick does
/// to a peer does not depend on the peers behind it, and a connection of any of
/// them counts.
pub proof fn law_every_peer_gets_its_tick(
    s: Seq<PeerModel>,
    c: CacheModel,
    statuses: Seq<PeerStatus>,
    now: int,
    wall: int,
    i: int,
)
    requires
        0 <= i < s.len(),
    ensures
        ({
            let all = all_ticked(s, c, statuses, now, wall);
            let before = all_ticked(s.take(i), c, statuses, now, wall);
            let one = peer_ticked(
                s[i],
                before.cache,
                status_of(statuses, s[i].wg_public),
                now,
                wall,
            );
            &&& all.peers.len() == s.len()
            &&& all.effects.len() == s.len()
            &&& all.commands.len() == s.len()
            &&& all.peers[i] == one.peer
            &&& all.effects[i] == one.effects
            &&& all.commands[i] == one.command
            &&& one.connected ==> all.connected
            &&& all.connected ==> exists|j: int| #[trigger]
                peer_connects(s, c, statuses, now, wall, j)
            &&& i == s.len() - 1 ==> all.cache == one.cache
        }),
    decreases s.len(),
{
    let front = s.drop_last();
    let last = s.len() - 1;
    let all = all_ticked(s, c, statuses, now, wall);
    let init = all_ticked(front, c, statuses, now, wall);
    assert(s.take(last) =~= front);
    if last > 0 {
        let k = if i < last {
            i
        } else {
            0
        };
        law_every_peer_gets_its_tick(front, c, statuses, now, wall, k);
        assert(front.take(k) =~= s.take(k));
    }
    if i < last {
        assert(front.take(i) =~= s.take(i));
        assert(front[i] == s[i]);
    }
    if all.connected {
        let one = peer_ticked(
            s[last],
            init.cache,
            status_of(statuses, s[last].wg_public),
            now,
            wall,
        );
        if one.connected {
            assert(peer_connects(s, c, statuses, now, wall, last));
        } else {
            let j = choose|j: int| #[trigger] peer_connects(front, c, statuses, now, wall, j);
            assert(front.take(j) =~= s.take(j));
            assert(front[j] == s[j]);
            assert(peer_connects(s, c, statuses, now, wall, j));
        }
    }
}

/// Whether the tick of the peer at `j` makes or moves a connection.
pub open spec fn peer_connects(
    s: Seq<PeerModel>,
    c: CacheModel,
    statuses: Seq<PeerStatus>,
    now: int,
    wall: int,
    j: int,
) -> bool {
    0 <= j < s.len() && peer_ticked(
        s[j],
        all_ticked(s.take(j), c, statuses, now, wall).cache,
        status_of(statuses, s[j].wg_public),
        now,
        wall,
    ).connected
}

/// What is shown of a peer: whether it is probing, connected or relayed, the
/// endpoint in use, and how far probing has come.
pub proof fn law_shown_as_it_is(
    s: PeerState,
    p: PeerModel,
    c: CacheModel,
    installed: Map<Seq<char>, Seq<Ipv6Route>>,
    status: Option<PeerStatus>,
    wall: int,
)
    requires
        shows_peer(s, p, c, installed, status, wall),
    ensures
        s.name@ == p.name,
        s.public_key@ == p.key,
        s.address == p.overlay,
        s.candidates == p.fsm.candidates.len(),
        match p.fsm.state {
            PunchState::Probing { candidate_index, rounds } => {
                &&& s.punch_state@ == "probing"@
                &&& s.candidate_index == candidate_index
                &&& s.rounds == rounds
                &&& s.relay_via is None
                &&& candidate_index < p.fsm.candidates.len() ==> s.endpoint == Some(
                    p.fsm.candidates[candidate_index as int],
                )
                &&& candidate_index >= p.fsm.candidates.len() ==> s.endpoint is None
            },
            PunchState::Connected { endpoint } => {
                let over_relay = p.relay is Some && p.relay->Some_0.session is Some
                    && p.relay->Some_0.session->Some_0.endpoint == endpoint;
                &&& s.endpoint == Some(endpoint)
                &&& s.candidate_index == 0
                &&& s.rounds == 0
                &&& over_relay ==> s.punch_state@ == "relayed"@ && s.relay_via is Some
                    && s.relay_via->Some_0@ == p.relay->Some_0.via_name
                &&& !over_relay ==> s.punch_state@ == "connected"@ && s.relay_via is None
            },
        },
{
}

/// What is shown of a peer besides: the device's counts and handshake, the
/// installed routes, how many endpoints each layer reports, and what explains
/// the endpoint in use.
pub proof fn law_shown_with_its_numbers(
    s: PeerState,
    p: PeerModel,
    c: CacheModel,
    installed: Map<Seq<char>, Seq<Ipv6Route>>,
    status: Option<PeerStatus>,
    wall: int,
)
    requires
        shows_peer(s, p, c, installed, status, wall),
        status is Some && status->Some_0.last_handshake is Some ==> wall
            - status->Some_0.last_handshake->Some_0@ <= u64::MAX,
    ensures
        status matches Some(x) ==> {
            &&& s.rx_bytes == x.rx_bytes
            &&& s.tx_bytes == x.tx_bytes
            &&& x.last_handshake is None ==> s.last_handshake_secs is None
            &&& x.last_handshake matches Some(t) ==> {
                &&& t@ <= wall ==> s.last_handshake_secs is Some && s.last_handshake_secs->Some_0
                    * 1_000_000_000 <= wall - t@ < (s.last_handshake_secs->Some_0 + 1)
                    * 1_000_000_000
                &&& t@ > wall ==> s.last_handshake_secs is None
            }
        },
        status is None ==> s.rx_bytes == 0 && s.tx_bytes == 0 && s.last_handshake_secs is None,
        installed.dom().contains(p.key) ==> s.routes@ == installed[p.key],
        !installed.dom().contains(p.key) ==> s.routes@.len() == 0,
        s.lan_endpoints == p.discovered.filter(
            |d: (Source, SocketAddrV6)| d.0 == Source::Lan,
        ).len(),
        s.gossip_endpoints == p.discovered.filter(
            |d: (Source, SocketAddrV6)| d.0 == Source::Gossip,
        ).len(),
        s.ddns_endpoints == p.discovered.filter(
            |d: (Source, SocketAddrV6)| d.0 == Source::Ddns,
        ).len(),
        s.endpoint_source@ == state::explanation(
            s.endpoint,
            if p.relay is Some && p.relay->Some_0.session is Some {
                Some(p.relay->Some_0.session->Some_0.endpoint)
            } else {
                None
            },
            p.configured,
            p.discovered,
            if c.dom().contains(p.key) {
                c[p.key].seen
            } else {
                seq![]
            },
        ),
{
    seqs::lemma_filter_congruent(
        p.discovered,
        discovery::is_from(Source::Lan),
        |d: (Source, SocketAddrV6)| d.0 == Source::Lan,
    );
    seqs::lemma_filter_congruent(
        p.discovered,
        discovery::is_from(Source::Gossip),
        |d: (Source, SocketAddrV6)| d.0 == Source::Gossip,
    );
    seqs::lemma_filter_congruent(
        p.discovered,
        discovery::is_from(Source::Ddns),
        |d: (Source, SocketAddrV6)| d.0 == Source::Ddns,
    );
}

/// The routes behind a peer are wanted while it is connected, directly or over a
/// relay, and none of them otherwise.
pub proof fn law_routes_follow_the_connection(p: PeerModel)
    ensures
        p.fsm.state is Connected ==> wanted_routes(p) == p.routes,
        p.fsm.state is Probing ==> wanted_routes(p).len() == 0,
{
}

} // verus!
