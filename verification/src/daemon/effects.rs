//! What the node asks its surroundings to do.

use super::peer::{self, CacheModel, PeerModel, PeerRuntime};
use crate::addr::{Ipv6Addr, SocketAddrV6};
use crate::cache::{self, EndpointCache};
use crate::ddns::{DdnsPeer, DdnsPeerModel};
use crate::fsm::Action;
use crate::members::{self, site_of};
use crate::route::{self, allowed_ips_for};
use crate::status;
use crate::wg::types::{PeerSpec, PeerSpecModel};
use vstd::prelude::*;

verus! {

/// Something for the caller to do.
#[derive(Debug)]
pub enum Effect {
    /// Make this the peer's endpoint in the device.
    SetEndpoint {
        /// The peer.
        wg_public: [u8; 32],
        /// The endpoint.
        endpoint: SocketAddrV6,
    },
    /// Remove a peer from the device.
    RemovePeer {
        /// The peer.
        wg_public: [u8; 32],
    },
    /// Add a peer to the device.
    AddPeer(PeerSpec),
    /// Send a one-byte packet there.
    Nudge(SocketAddrV6),
    /// Save the endpoint cache.
    SaveCache,
    /// Save the members.
    SaveMembers,
    /// Broadcast gossip to these overlay addresses from now on.
    UpdateGossipTargets(Vec<Ipv6Addr>),
    /// Look up these nodes in the distributed hash table from now on.
    UpdateDhtPeers(Vec<String>),
    /// Look up the records of these peers from now on.
    UpdateDdnsPeers(Vec<DdnsPeer>),
}

/// What an [`Effect`] says.
pub enum EffectModel {
    /// Make this the peer's endpoint in the device.
    SetEndpoint {
        /// The peer.
        wg_public: [u8; 32],
        /// The endpoint.
        endpoint: SocketAddrV6,
    },
    /// Remove a peer from the device.
    RemovePeer {
        /// The peer.
        wg_public: [u8; 32],
    },
    /// Add a peer to the device.
    AddPeer(PeerSpecModel),
    /// Send a one-byte packet there.
    Nudge(SocketAddrV6),
    /// Save the endpoint cache.
    SaveCache,
    /// Save the members.
    SaveMembers,
    /// Broadcast gossip to these overlay addresses from now on.
    UpdateGossipTargets(Seq<Ipv6Addr>),
    /// Look up these nodes in the distributed hash table from now on.
    UpdateDhtPeers(Seq<Seq<char>>),
    /// Look up the records of these peers from now on.
    UpdateDdnsPeers(Seq<DdnsPeerModel>),
}

impl View for Effect {
    type V = EffectModel;

    open spec fn view(&self) -> EffectModel {
        match self {
            Effect::SetEndpoint { wg_public, endpoint } => EffectModel::SetEndpoint {
                wg_public: *wg_public,
                endpoint: *endpoint,
            },
            Effect::RemovePeer { wg_public } => EffectModel::RemovePeer { wg_public: *wg_public },
            Effect::AddPeer(spec) => EffectModel::AddPeer(spec@),
            Effect::Nudge(to) => EffectModel::Nudge(*to),
            Effect::SaveCache => EffectModel::SaveCache,
            Effect::SaveMembers => EffectModel::SaveMembers,
            Effect::UpdateGossipTargets(t) => EffectModel::UpdateGossipTargets(t@),
            Effect::UpdateDhtPeers(k) => EffectModel::UpdateDhtPeers(status::texts(k@)),
            Effect::UpdateDdnsPeers(p) => EffectModel::UpdateDdnsPeers(
                p@.map_values(|d: DdnsPeer| d@),
            ),
        }
    }
}

/// What effects say.
pub open spec fn effect_models(s: Seq<Effect>) -> Seq<EffectModel> {
    s.map_values(|e: Effect| e@)
}

/// What entering a peer anew with this endpoint tells the device: all its
/// addresses and its keepalive interval as before.
pub open spec fn readded(p: PeerModel, ep: SocketAddrV6) -> PeerSpecModel {
    PeerSpecModel {
        wg_public: p.wg_public,
        endpoint: Some(ep),
        allowed_ips: route::allowed_ips(members::site(p.overlay), p.routes),
        persistent_keepalive: p.keepalive,
    }
}

/// Where nudges for a peer go.
pub open spec fn nudge_target(p: PeerModel) -> SocketAddrV6 {
    SocketAddrV6 { ip: p.overlay, port: peer::NUDGE_PORT, flowinfo: 0, scope_id: 0 }
}

/// What an action of a peer's state machine does to the cache and to the
/// surroundings.
///
/// A peer that is reached on demand is not nudged. An endpoint of a relay is
/// not remembered: its port is gone with the session.
pub open spec fn performed(
    p: PeerModel,
    cache: CacheModel,
    action: Action,
    now_unix: u64,
) -> (CacheModel, Seq<EffectModel>) {
    match action {
        Action::SetEndpoint(ep) => (
            cache,
            seq![EffectModel::SetEndpoint { wg_public: p.wg_public, endpoint: ep }],
        ),
        Action::Rehandshake(ep) => (
            cache,
            seq![
                EffectModel::RemovePeer { wg_public: p.wg_public },
                EffectModel::AddPeer(readded(p, ep)),
            ],
        ),
        Action::Nudge => (
            cache,
            if p.on_demand {
                seq![]
            } else {
                seq![EffectModel::Nudge(nudge_target(p))]
            },
        ),
        Action::MarkGood(ep) => if p.session_endpoint() == Some(ep) {
            (cache, seq![])
        } else {
            (
                cache.insert(p.key, cache::remembered(cache, p.key).after_good(ep, now_unix)),
                seq![EffectModel::SaveCache],
            )
        },
    }
}

/// What some actions do, one after the other.
pub open spec fn all_performed(
    p: PeerModel,
    cache: CacheModel,
    actions: Seq<Action>,
    now_unix: u64,
) -> (CacheModel, Seq<EffectModel>)
    decreases actions.len(),
{
    if actions.len() == 0 {
        (cache, seq![])
    } else {
        let (c, done) = all_performed(p, cache, actions.drop_last(), now_unix);
        let (c2, more) = performed(p, c, actions.last(), now_unix);
        (c2, done + more)
    }
}

fn apply_action(
    cache: &mut EndpointCache,
    peer: &PeerRuntime,
    action: Action,
    now_unix: u64,
    effects: &mut Vec<Effect>,
)
    requires
        old(cache).wf(),
    ensures
        final(cache).wf(),
        final(cache).version == old(cache).version,
        ({
            let (c, more) = performed(peer@, old(cache)@, action, now_unix);
            &&& final(cache)@ == c
            &&& effect_models(final(effects)@) == effect_models(old(effects)@) + more
        }),
{
    let ghost before = effects@;
    match action {
        Action::SetEndpoint(ep) => {
            effects.push(Effect::SetEndpoint { wg_public: peer.wg_public, endpoint: ep });
            assert(effect_models(effects@) =~= effect_models(before) + performed(
                peer@,
                cache@,
                action,
                now_unix,
            ).1);
        },
        Action::Rehandshake(ep) => {
            effects.push(Effect::RemovePeer { wg_public: peer.wg_public });
            effects.push(
                Effect::AddPeer(
                    PeerSpec {
                        wg_public: peer.wg_public,
                        endpoint: Some(ep),
                        allowed_ips: allowed_ips_for(
                            site_of(peer.overlay),
                            peer.routes.as_slice(),
                        ),
                        persistent_keepalive: peer.keepalive,
                    },
                ),
            );
            assert(effect_models(effects@) =~= effect_models(before) + performed(
                peer@,
                cache@,
                action,
                now_unix,
            ).1);
        },
        Action::Nudge => {
            if !peer.on_demand {
                effects.push(
                    Effect::Nudge(SocketAddrV6::new(peer.overlay, peer::NUDGE_PORT, 0, 0)),
                );
            }
            assert(effect_models(effects@) =~= effect_models(before) + performed(
                peer@,
                cache@,
                action,
                now_unix,
            ).1);
        },
        Action::MarkGood(ep) => {
            let over_relay = match &peer.relay {
                Some(l) => match l.session {
                    Some(s) => s.endpoint == ep,
                    None => false,
                },
                None => false,
            };
            if over_relay {
                assert(effect_models(effects@) =~= effect_models(before) + Seq::<
                    EffectModel,
                >::empty());
                return ;
            }
            let ghost c = cache@;
            cache.record_good(peer.key_b64.as_str(), ep, now_unix);
            effects.push(Effect::SaveCache);
            assert(effect_models(effects@) =~= effect_models(before) + performed(
                peer@,
                c,
                action,
                now_unix,
            ).1);
        },
    }
}

/// Turns the actions of a peer's state machine into effects, and remembers the
/// endpoints that work.
pub fn apply_actions(
    cache: &mut EndpointCache,
    peer: &PeerRuntime,
    actions: &[Action],
    now_unix: u64,
) -> (effects: Vec<Effect>)
    requires
        old(cache).wf(),
    ensures
        final(cache).wf(),
        final(cache).version == old(cache).version,
        (final(cache)@, effect_models(effects@)) == all_performed(
            peer@,
            old(cache)@,
            actions@,
            now_unix,
        ),
{
    let mut effects: Vec<Effect> = Vec::new();
    let ghost start = cache@;
    let mut i: usize = 0;
    proof {
        assert(actions@.take(0) =~= seq![]);
        assert(effect_models(effects@) =~= seq![]);
    }
    while i < actions.len()
        invariant
            i <= actions.len(),
            cache.wf(),
            cache.version == old(cache).version,
            (cache@, effect_models(effects@)) == all_performed(
                peer@,
                start,
                actions@.take(i as int),
                now_unix,
            ),
        decreases actions.len() - i,
    {
        assert(actions@.take(i + 1).drop_last() =~= actions@.take(i as int));
        apply_action(cache, peer, actions[i], now_unix, &mut effects);
        i = i + 1;
    }
    assert(actions@.take(i as int) =~= actions@);
    effects
}

/// A connection over a relay leaves no trace in the cache.
pub proof fn law_relay_never_cached(
    p: PeerModel,
    cache: CacheModel,
    ep: SocketAddrV6,
    now_unix: u64,
)
    requires
        p.session_endpoint() == Some(ep),
    ensures
        performed(p, cache, Action::MarkGood(ep), now_unix) == (cache, Seq::<EffectModel>::empty()),
{
}

/// A peer that is reached on demand is never nudged, whatever its state
/// machine asks for.
pub proof fn law_on_demand_never_nudged(
    p: PeerModel,
    cache: CacheModel,
    actions: Seq<Action>,
    now_unix: u64,
    to: SocketAddrV6,
)
    requires
        p.on_demand,
    ensures
        !all_performed(p, cache, actions, now_unix).1.contains(EffectModel::Nudge(to)),
    decreases actions.len(),
{
    if actions.len() > 0 {
        law_on_demand_never_nudged(p, cache, actions.drop_last(), now_unix, to);
        let (c, done) = all_performed(p, cache, actions.drop_last(), now_unix);
        let (_, more) = performed(p, c, actions.last(), now_unix);
        let all = done + more;
        if all.contains(EffectModel::Nudge(to)) {
            let k = choose|k: int| 0 <= k < all.len() && all[k] == EffectModel::Nudge(to);
            if k < done.len() {
                assert(done[k] == EffectModel::Nudge(to));
            } else {
                assert(more[k - done.len()] == EffectModel::Nudge(to));
            }
        }
    }
}

/// The actions of one peer change only what is remembered of that peer.
pub proof fn law_actions_touch_own_peer(
    p: PeerModel,
    cache: CacheModel,
    actions: Seq<Action>,
    now_unix: u64,
    other: Seq<char>,
)
    requires
        other != p.key,
    ensures
        cache::remembered(all_performed(p, cache, actions, now_unix).0, other) == cache::remembered(
            cache,
            other,
        ),
    decreases actions.len(),
{
    if actions.len() > 0 {
        law_actions_touch_own_peer(p, cache, actions.drop_last(), now_unix, other);
    }
}

/// What each action asks of the surroundings: setting an endpoint, dropping a
/// session by entering the peer anew with all its addresses and its keepalive
/// interval, a packet to the peer's overlay address. None of these touches the
/// cache.
pub proof fn law_actions_reach_the_device(
    p: PeerModel,
    cache: CacheModel,
    ep: SocketAddrV6,
    now_unix: u64,
    i: int,
)
    ensures
        performed(p, cache, Action::SetEndpoint(ep), now_unix) == (
            cache,
            seq![EffectModel::SetEndpoint { wg_public: p.wg_public, endpoint: ep }],
        ),
        ({
            let (c, done) = performed(p, cache, Action::Rehandshake(ep), now_unix);
            &&& c == cache
            &&& done.len() == 2
            &&& done[0] == (EffectModel::RemovePeer { wg_public: p.wg_public })
            &&& done[1] is AddPeer
            &&& done[1]->AddPeer_0.wg_public == p.wg_public
            &&& done[1]->AddPeer_0.endpoint == Some(ep)
            &&& done[1]->AddPeer_0.persistent_keepalive == p.keepalive
            &&& done[1]->AddPeer_0.allowed_ips.len() == 1 + p.routes.len()
            &&& done[1]->AddPeer_0.allowed_ips[0] == (members::site(p.overlay), 64u8)
            &&& 0 <= i < p.routes.len() ==> done[1]->AddPeer_0.allowed_ips[1 + i] == (
                p.routes[i].prefix,
                p.routes[i].prefix_len,
            )
        }),
        ({
            let (c, done) = performed(p, cache, Action::Nudge, now_unix);
            &&& c == cache
            &&& p.on_demand ==> done.len() == 0
            &&& !p.on_demand ==> done == seq![
                EffectModel::Nudge(
                    SocketAddrV6 { ip: p.overlay, port: 9, flowinfo: 0, scope_id: 0 },
                ),
            ]
        }),
{
}

/// A direct endpoint that works is remembered as the last good one, and the
/// cache is saved; what is remembered of other peers stays.
pub proof fn law_direct_success_is_remembered(
    p: PeerModel,
    cache: CacheModel,
    ep: SocketAddrV6,
    now_unix: u64,
    other: Seq<char>,
)
    requires
        p.relay is None || p.relay->Some_0.session is None
            || p.relay->Some_0.session->Some_0.endpoint != ep,
    ensures
        ({
            let (c, done) = performed(p, cache, Action::MarkGood(ep), now_unix);
            &&& c.dom().contains(p.key)
            &&& c[p.key].last_good == Some(crate::candidates::normal(ep))
            &&& cache::remembered(cache, p.key).seen.len() < 8 ==> c[p.key].seen.contains(
                cache::CachedEndpoint {
                    endpoint: crate::candidates::normal(ep),
                    last_seen_unix: now_unix,
                },
            )
            &&& other != p.key ==> cache::remembered(c, other) == cache::remembered(cache, other)
            &&& done == seq![EffectModel::SaveCache]
        }),
{
    cache::law_good_endpoint_is_remembered(cache::remembered(cache, p.key), ep, now_unix);
}

/// Actions are performed one after the other: what the first ones ask for comes
/// first, and the later ones find the cache as the first ones left it.
pub proof fn law_actions_in_order(
    p: PeerModel,
    cache: CacheModel,
    a: Seq<Action>,
    b: Seq<Action>,
    now_unix: u64,
)
    ensures
        ({
            let (c1, e1) = all_performed(p, cache, a, now_unix);
            let (c2, e2) = all_performed(p, c1, b, now_unix);
            all_performed(p, cache, a + b, now_unix) == (c2, e1 + e2)
        }),
        forall|x: Action| #[trigger]
            all_performed(p, cache, seq![x], now_unix) == performed(p, cache, x, now_unix),
        all_performed(p, cache, seq![], now_unix) == (cache, Seq::<EffectModel>::empty()),
    decreases b.len(),
{
    assert forall|x: Action| #[trigger]
        all_performed(p, cache, seq![x], now_unix) == performed(p, cache, x, now_unix) by {
        reveal_with_fuel(all_performed, 2);
        let one = seq![x];
        assert(one.drop_last() =~= seq![]);
        let (c, more) = performed(p, cache, x, now_unix);
        assert(Seq::<EffectModel>::empty() + more =~= more);
    }
    let (c1, e1) = all_performed(p, cache, a, now_unix);
    if b.len() == 0 {
        assert(a + b =~= a);
        assert(e1 + Seq::<EffectModel>::empty() =~= e1);
    } else {
        law_actions_in_order(p, cache, a, b.drop_last(), now_unix);
        assert((a + b).drop_last() =~= a + b.drop_last());
        let (c2, e2) = all_performed(p, c1, b.drop_last(), now_unix);
        let (c3, more) = performed(p, c2, b.last(), now_unix);
        assert((e1 + e2) + more =~= e1 + (e2 + more));
    }
}

} // verus!
