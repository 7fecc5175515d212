//! What news of a peer's endpoints leads to.

use super::effects::{self, apply_actions, Effect, EffectModel};
use super::peer::{
    self, find_peer, relayed_via_endpoint, CacheModel, LinkModel, PeerModel, PeerRuntime,
};
use super::relaying::{self, recompute};
use crate::addr::SocketAddrV6;
use crate::cache::{self, EndpointCache};
use crate::candidates::{self, normalize, DiscoveredEndpoints, Source};
use crate::fsm::{self, Action, PunchState};
use crate::seqs;
use crate::state::{self, unix_secs};
use crate::time::SystemTime;
use vstd::prelude::*;

verus! {

/// What the rendezvous layers report of a peer.
pub type Reports = Seq<(Source, SocketAddrV6)>;

/// Whether a report is this layer's.
pub open spec fn is_from(layer: Source) -> spec_fn((Source, SocketAddrV6)) -> bool {
    |d: (Source, SocketAddrV6)| d.0 == layer
}

/// Whether a report is another layer's.
pub open spec fn not_from(layer: Source) -> spec_fn((Source, SocketAddrV6)) -> bool {
    |d: (Source, SocketAddrV6)| d.0 != layer
}

/// The reports of one layer.
pub open spec fn of_layer(s: Reports, layer: Source) -> Reports {
    s.filter(is_from(layer))
}

/// The reports in the order of the layers; those of a layer keep their order.
pub open spec fn by_layer(s: Reports) -> Reports {
    of_layer(s, Source::Lan) + of_layer(s, Source::Gossip) + of_layer(s, Source::Dht) + of_layer(
        s,
        Source::Ddns,
    )
}

/// Endpoints as reports of a layer.
pub open spec fn tagged(layer: Source, endpoints: Seq<SocketAddrV6>) -> Reports {
    endpoints.map_values(|ep: SocketAddrV6| (layer, ep))
}

/// The reports after a layer reported anew: what it said before is replaced,
/// what the others said stays.
pub open spec fn with_report(s: Reports, layer: Source, endpoints: Seq<SocketAddrV6>) -> Reports {
    by_layer(s.filter(not_from(layer)) + tagged(layer, endpoints))
}

/// Whether a layer other than gossip reports `ep`.
///
/// Gossip is hearsay that travels through the very tunnels that break when
/// both ends move, so an old address can stay in it for long. The other layers
/// carry what the peer says of itself now.
pub open spec fn authoritative(s: Reports, ep: SocketAddrV6) -> bool {
    exists|i: int|
        0 <= i < s.len() && (#[trigger] s[i]).0 != Source::Gossip && candidates::normal(s[i].1)
            == ep
}

/// Whether `ep` is reported by a layer that can be relied on for forgetting
/// dead addresses: by one other than gossip, or by gossip when it is the only
/// one that reports anything.
pub open spec fn reliable(s: Reports, ep: SocketAddrV6) -> bool {
    if exists|i: int| 0 <= i < s.len() && (#[trigger] s[i]).0 != Source::Gossip {
        authoritative(s, ep)
    } else {
        exists|i: int| 0 <= i < s.len() && candidates::normal((#[trigger] s[i]).1) == ep
    }
}

/// Tells whether a layer other than gossip still reports an endpoint.
pub fn still_reported_by_authoritative_source(
    discovered: &[(Source, SocketAddrV6)],
    endpoint: SocketAddrV6,
) -> (yes: bool)
    ensures
        yes == authoritative(discovered@, endpoint),
{
    let mut i: usize = 0;
    while i < discovered.len()
        invariant
            i <= discovered.len(),
            forall|j: int|
                0 <= j < i ==> !((#[trigger] discovered@[j]).0 != Source::Gossip
                    && candidates::normal(discovered@[j].1) == endpoint),
        decreases discovered.len() - i,
    {
        if discovered[i].0 != Source::Gossip && normalize(discovered[i].1) == endpoint {
            assert(discovered@[i as int].0 != Source::Gossip);
            return true;
        }
        i = i + 1;
    }
    false
}

/// Tells whether an endpoint is still reported by a layer that can be relied
/// on for forgetting dead addresses.
pub fn reported_by_reliable_source(
    discovered: &[(Source, SocketAddrV6)],
    endpoint: SocketAddrV6,
) -> (yes: bool)
    ensures
        yes == reliable(discovered@, endpoint),
{
    let mut i: usize = 0;
    let mut reported = false;
    while i < discovered.len()
        invariant
            i <= discovered.len(),
            forall|j: int| 0 <= j < i ==> (#[trigger] discovered@[j]).0 == Source::Gossip,
            reported == exists|j: int|
                0 <= j < i && candidates::normal((#[trigger] discovered@[j]).1) == endpoint,
        decreases discovered.len() - i,
    {
        if discovered[i].0 != Source::Gossip {
            assert(discovered@[i as int].0 != Source::Gossip);
            return still_reported_by_authoritative_source(discovered, endpoint);
        }
        if normalize(discovered[i].1) == endpoint {
            reported = true;
            assert(candidates::normal(discovered@[i as int].1) == endpoint);
        }
        i = i + 1;
    }
    reported
}

fn append_layer(
    base: &Vec<(Source, SocketAddrV6)>,
    layer: Source,
    out: &mut Vec<(Source, SocketAddrV6)>,
)
    ensures
        final(out)@ == old(out)@ + of_layer(base@, layer),
{
    let ghost start = out@;
    let mut i: usize = 0;
    proof {
        reveal(Seq::filter);
        assert(base@.take(0).filter(is_from(layer)) =~= seq![]);
        assert(out@ =~= start + base@.take(0).filter(is_from(layer)));
    }
    while i < base.len()
        invariant
            i <= base.len(),
            out@ == start + base@.take(i as int).filter(is_from(layer)),
        decreases base.len() - i,
    {
        let d = base[i];
        let ghost kept = base@.take(i as int).filter(is_from(layer));
        proof {
            assert(base@.take(i + 1) =~= base@.take(i as int).push(d));
            seqs::lemma_filter_push(base@.take(i as int), d, is_from(layer));
        }
        if d.0 == layer {
            out.push(d);
            assert(out@ =~= start + kept.push(d));
        }
        i = i + 1;
    }
    assert(base@.take(i as int) =~= base@);
}

/// Replaces what a layer reports, and puts the reports in the order of the
/// layers.
pub fn merge_report(
    discovered: &Vec<(Source, SocketAddrV6)>,
    layer: Source,
    endpoints: &Vec<SocketAddrV6>,
) -> (merged: Vec<(Source, SocketAddrV6)>)
    ensures
        merged@ == with_report(discovered@, layer, endpoints@),
{
    let mut base: Vec<(Source, SocketAddrV6)> = Vec::new();
    let mut i: usize = 0;
    proof {
        reveal(Seq::filter);
        assert(discovered@.take(0).filter(not_from(layer)) =~= seq![]);
    }
    while i < discovered.len()
        invariant
            i <= discovered.len(),
            base@ == discovered@.take(i as int).filter(not_from(layer)),
        decreases discovered.len() - i,
    {
        let d = discovered[i];
        proof {
            assert(discovered@.take(i + 1) =~= discovered@.take(i as int).push(d));
            seqs::lemma_filter_push(discovered@.take(i as int), d, not_from(layer));
        }
        if d.0 != layer {
            base.push(d);
        }
        i = i + 1;
    }
    assert(discovered@.take(i as int) =~= discovered@);
    let ghost kept = base@;
    let mut i: usize = 0;
    assert(base@ =~= kept + tagged(layer, endpoints@.take(0)));
    while i < endpoints.len()
        invariant
            i <= endpoints.len(),
            base@ == kept + tagged(layer, endpoints@.take(i as int)),
        decreases endpoints.len() - i,
    {
        base.push((layer, endpoints[i]));
        i = i + 1;
        assert(base@ =~= kept + tagged(layer, endpoints@.take(i as int)));
    }
    assert(endpoints@.take(i as int) =~= endpoints@);
    let mut merged: Vec<(Source, SocketAddrV6)> = Vec::new();
    append_layer(&base, Source::Lan, &mut merged);
    append_layer(&base, Source::Gossip, &mut merged);
    append_layer(&base, Source::Dht, &mut merged);
    append_layer(&base, Source::Ddns, &mut merged);
    assert(merged@ =~= by_layer(base@));
    merged
}

/// The cache without an endpoint of a peer.
pub open spec fn forgotten(c: CacheModel, key: Seq<char>, ep: SocketAddrV6) -> CacheModel {
    if c.dom().contains(key) {
        c.insert(key, c[key].without(ep))
    } else {
        c
    }
}

/// Whether news makes the node forget the endpoint `ep` that it is connected
/// to: it is not configured, and no reliable layer reports it any more.
pub open spec fn forgets(p: PeerModel, ep: SocketAddrV6) -> bool {
    !state::has_endpoint(p.configured, ep) && !reliable(p.discovered, ep)
}

/// Whether news makes the node leave the endpoint `ep` that it is connected
/// to: it is not configured, and no authoritative layer reports it any more.
pub open spec fn abandons(p: PeerModel, ep: SocketAddrV6) -> bool {
    !state::has_endpoint(p.configured, ep) && !authoritative(p.discovered, ep)
}

/// What came of news: the peer, the cache before the actions, the effects that
/// precede the actions, and the actions.
pub struct News {
    /// The peer.
    pub peer: PeerModel,
    /// The cache.
    pub cache: CacheModel,
    /// The effects that come first.
    pub first: Seq<EffectModel>,
    /// What the state machine asks for.
    pub actions: Seq<Action>,
}

/// What comes of it when a layer reports these endpoints of a peer.
///
/// On a relay, news is the occasion to try a direct connection. On a direct
/// connection, news that no longer names the endpoint in use means that the
/// peer has moved. Otherwise only the candidates change.
pub open spec fn news(
    p: PeerModel,
    c: CacheModel,
    layer: Source,
    endpoints: Seq<SocketAddrV6>,
    wall: int,
) -> News {
    let p1 = PeerModel { discovered: with_report(p.discovered, layer, endpoints), ..p };
    match (p1.relayed_via(), p1.fsm.state) {
        (Some(relay), _) => {
            let link = LinkModel {
                upgrade_pending: true,
                upgrade_retries: 0,
                ..p1.relay->Some_0
            };
            let (p2, first) = p1.with_link(link).recomputed(c, wall);
            let (p3, to) = p2.sent_away(relay, wall);
            News { peer: p3, cache: c, first: seq![], actions: first + relaying::flush_to(to) }
        },
        (None, PunchState::Connected { endpoint }) => {
            let c1 = if forgets(p1, endpoint) {
                forgotten(c, p1.key, endpoint)
            } else {
                c
            };
            let saved = if forgets(p1, endpoint) {
                seq![EffectModel::SaveCache]
            } else {
                seq![]
            };
            let (p2, first) = p1.recomputed(c1, wall);
            if abandons(p1, endpoint) {
                let (p3, to) = p2.sent_away(endpoint, wall);
                News {
                    peer: p3,
                    cache: c1,
                    first: saved,
                    actions: first + relaying::move_to(to),
                }
            } else {
                News { peer: p2, cache: c1, first: saved, actions: first }
            }
        },
        (None, PunchState::Probing { .. }) => {
            let (p2, actions) = p1.recomputed(c, wall);
            News { peer: p2, cache: c, first: seq![], actions }
        },
    }
}

fn is_configured(peer: &PeerRuntime, ep: SocketAddrV6) -> (yes: bool)
    ensures
        yes == state::has_endpoint(peer@.configured, ep),
{
    let mut i: usize = 0;
    while i < peer.configured.len()
        invariant
            i <= peer.configured.len(),
            forall|j: int| 0 <= j < i ==> candidates::normal(#[trigger] peer.configured@[j]) != ep,
        decreases peer.configured.len() - i,
    {
        if normalize(peer.configured[i]) == ep {
            assert(candidates::normal(peer.configured@[i as int]) == ep);
            return true;
        }
        i = i + 1;
    }
    false
}

fn take_news(
    peer: &mut PeerRuntime,
    cache: &mut EndpointCache,
    layer: Source,
    endpoints: &Vec<SocketAddrV6>,
    wall: SystemTime,
) -> (out: (Vec<Effect>, Vec<Action>))
    requires
        old(cache).wf(),
        old(peer)@.fsm.wf(),
    ensures
        final(cache).wf(),
        final(cache).version == old(cache).version,
        final(peer)@.fsm.wf(),
        (News {
            peer: final(peer)@,
            cache: final(cache)@,
            first: effects::effect_models(out.0@),
            actions: out.1@,
        }) == news(old(peer)@, old(cache)@, layer, endpoints@, wall@),
{
    let mut first: Vec<Effect> = Vec::new();
    assert(effects::effect_models(first@) =~= seq![]);
    peer.discovered = merge_report(&peer.discovered, layer, endpoints);
    if let Some(relay_ep) = relayed_via_endpoint(peer) {
        if let Some(mut link) = peer.relay.take() {
            link.upgrade_pending = true;
            link.upgrade_retries = 0;
            peer.relay = Some(link);
        }
        let mut actions = recompute(peer, cache, wall);
        let mut more = peer.fsm.retry_from_flush(Some(relay_ep), wall);
        actions.append(&mut more);
        return (first, actions);
    }
    if let PunchState::Connected { endpoint } = peer.fsm.state() {
        let configured = is_configured(peer, endpoint);
        if !configured && !reported_by_reliable_source(peer.discovered.as_slice(), endpoint) {
            cache.evict(peer.key_b64.as_str(), endpoint);
            first.push(Effect::SaveCache);
            assert(effects::effect_models(first@) =~= seq![EffectModel::SaveCache]);
        }
        if !configured && !still_reported_by_authoritative_source(
            peer.discovered.as_slice(),
            endpoint,
        ) {
            let mut actions = recompute(peer, cache, wall);
            let mut more = peer.fsm.retry_from(Some(endpoint), wall);
            actions.append(&mut more);
            return (first, actions);
        }
    }
    let actions = recompute(peer, cache, wall);
    (first, actions)
}

/// Takes the news that a rendezvous layer knows a peer's endpoints. News of a
/// node that is no peer is ignored.
pub fn on_discovered(
    peers: &mut Vec<PeerRuntime>,
    cache: &mut EndpointCache,
    update: DiscoveredEndpoints,
    wall: SystemTime,
) -> (out: Vec<Effect>)
    requires
        old(cache).wf(),
        peer::all_wf(old(peers)@),
    ensures
        final(cache).wf(),
        final(cache).version == old(cache).version,
        peer::all_wf(final(peers)@),
        ({
            let before = peer::peer_models(old(peers)@);
            let k = peer::peer_index(before, update.peer_key@);
            if k < before.len() {
                let n = news(
                    before[k],
                    old(cache)@,
                    update.source,
                    update.endpoints@,
                    wall@,
                );
                let (c, more) = effects::all_performed(
                    n.peer,
                    n.cache,
                    n.actions,
                    state::seconds(wall@) as u64,
                );
                &&& peer::peer_models(final(peers)@) == before.update(k, n.peer)
                &&& final(cache)@ == c
                &&& effects::effect_models(out@) == n.first + more
            } else {
                &&& peer::peer_models(final(peers)@) == before
                &&& final(cache)@ == old(cache)@
                &&& out@.len() == 0
            }
        }),
{
    let ghost before = peer::peer_models(peers@);
    let k = find_peer(peers.as_slice(), &update.peer_key);
    if k >= peers.len() {
        return Vec::new();
    }
    assert(before[k as int] == peers@[k as int]@);
    let (mut out, actions) = take_news(
        &mut peers[k],
        cache,
        update.source,
        &update.endpoints,
        wall,
    );
    assert(peer::peer_models(peers@) =~= before.update(k as int, peers@[k as int]@));
    let ghost head = effects::effect_models(out@);
    let mut more = apply_actions(cache, &peers[k], actions.as_slice(), unix_secs(wall));
    let ghost tail = effects::effect_models(more@);
    out.append(&mut more);
    assert(effects::effect_models(out@) =~= head + tail);
    out
}

/// What an authoritative layer reports is reported reliably, and what only
/// gossip reports is never authoritative. So a node that forgets an endpoint
/// also leaves it.
pub proof fn law_authoritative_is_reliable(s: Reports, ep: SocketAddrV6)
    ensures
        authoritative(s, ep) ==> reliable(s, ep),
        (forall|i: int| 0 <= i < s.len() ==> (#[trigger] s[i]).0 == Source::Gossip)
            ==> !authoritative(s, ep),
{
    if authoritative(s, ep) {
        let i = choose|i: int|
            0 <= i < s.len() && (#[trigger] s[i]).0 != Source::Gossip && candidates::normal(s[i].1)
                == ep;
        assert(s[i].0 != Source::Gossip);
    }
}

proof fn lemma_layer_of_layer(s: Reports, a: Source, b: Source)
    ensures
        of_layer(of_layer(s, a), b) == if a == b {
            of_layer(s, a)
        } else {
            Seq::<(Source, SocketAddrV6)>::empty()
        },
{
    let t = of_layer(s, a);
    seqs::lemma_filter_members(s, is_from(a));
    assert forall|i: int| 0 <= i < t.len() implies is_from(a)(#[trigger] t[i]) by {
        assert(t.contains(t[i]));
    }
    if a == b {
        assert forall|i: int| 0 <= i < t.len() implies is_from(b)(#[trigger] t[i]) by {
            assert(is_from(a)(t[i]));
        }
        seqs::lemma_filter_all(t, is_from(b));
    } else {
        assert forall|i: int| 0 <= i < t.len() implies !is_from(b)(#[trigger] t[i]) by {
            assert(is_from(a)(t[i]));
        }
        seqs::lemma_filter_none(t, is_from(b));
    }
}

proof fn lemma_by_layer_keeps(s: Reports, layer: Source)
    ensures
        of_layer(by_layer(s), layer) == of_layer(s, layer),
{
    let l = of_layer(s, Source::Lan);
    let g = of_layer(s, Source::Gossip);
    let h = of_layer(s, Source::Dht);
    let d = of_layer(s, Source::Ddns);
    let f = is_from(layer);
    Seq::filter_distributes_over_add(l + g + h, d, f);
    Seq::filter_distributes_over_add(l + g, h, f);
    Seq::filter_distributes_over_add(l, g, f);
    lemma_layer_of_layer(s, Source::Lan, layer);
    lemma_layer_of_layer(s, Source::Gossip, layer);
    lemma_layer_of_layer(s, Source::Dht, layer);
    lemma_layer_of_layer(s, Source::Ddns, layer);
    assert(of_layer(by_layer(s), layer) =~= of_layer(s, layer));
}

proof fn lemma_base_own_layer(s: Reports, layer: Source, endpoints: Seq<SocketAddrV6>)
    ensures
        of_layer(s.filter(not_from(layer)) + tagged(layer, endpoints), layer) == tagged(
            layer,
            endpoints,
        ),
{
    let rest = s.filter(not_from(layer));
    let new = tagged(layer, endpoints);
    Seq::filter_distributes_over_add(rest, new, is_from(layer));
    seqs::lemma_filter_members(s, not_from(layer));
    assert forall|i: int| 0 <= i < rest.len() implies !is_from(layer)(#[trigger] rest[i]) by {
        assert(rest.contains(rest[i]));
        assert(not_from(layer)(rest[i]));
    }
    seqs::lemma_filter_none(rest, is_from(layer));
    seqs::lemma_filter_all(new, is_from(layer));
    assert(Seq::<(Source, SocketAddrV6)>::empty() + new =~= new);
}

proof fn lemma_base_other_layer(
    s: Reports,
    layer: Source,
    endpoints: Seq<SocketAddrV6>,
    other: Source,
)
    requires
        other != layer,
    ensures
        of_layer(s.filter(not_from(layer)) + tagged(layer, endpoints), other) == of_layer(s, other),
{
    let rest = s.filter(not_from(layer));
    let new = tagged(layer, endpoints);
    Seq::filter_distributes_over_add(rest, new, is_from(other));
    seqs::lemma_filter_none(new, is_from(other));
    seqs::lemma_filter_both(s, not_from(layer), is_from(other), is_from(other));
    assert(of_layer(s, other) + Seq::<(Source, SocketAddrV6)>::empty() =~= of_layer(s, other));
}

/// News of one layer replaces what that layer said and leaves what the other
/// layers said.
pub proof fn law_news_replaces_own_layer_only(
    s: Reports,
    layer: Source,
    endpoints: Seq<SocketAddrV6>,
    other: Source,
)
    requires
        other != layer,
    ensures
        of_layer(with_report(s, layer, endpoints), layer) == tagged(layer, endpoints),
        of_layer(with_report(s, layer, endpoints), other) == of_layer(s, other),
{
    let base = s.filter(not_from(layer)) + tagged(layer, endpoints);
    lemma_by_layer_keeps(base, layer);
    lemma_by_layer_keeps(base, other);
    lemma_base_own_layer(s, layer, endpoints);
    lemma_base_other_layer(s, layer, endpoints, other);
}

/// A direct connection is left alone as long as its endpoint is configured, or
/// an authoritative layer reports it: the state machine stays connected where
/// it is and asks for nothing.
pub proof fn law_supported_connection_kept(
    p: PeerModel,
    c: CacheModel,
    layer: Source,
    endpoints: Seq<SocketAddrV6>,
    wall: int,
)
    requires
        p.fsm.state is Connected,
        p.relayed_via() is None,
        state::has_endpoint(p.configured, p.fsm.state->endpoint) || authoritative(
            with_report(p.discovered, layer, endpoints),
            p.fsm.state->endpoint,
        ),
    ensures
        news(p, c, layer, endpoints, wall).peer.fsm.state == p.fsm.state,
        news(p, c, layer, endpoints, wall).actions == Seq::<Action>::empty(),
        news(p, c, layer, endpoints, wall).cache == c,
{
    let s = with_report(p.discovered, layer, endpoints);
    law_authoritative_is_reliable(s, p.fsm.state->endpoint);
}

/// News while the connection runs over a relay starts an attempt at a direct
/// connection, and nothing of the cache is forgotten.
pub proof fn law_news_on_relay_starts_upgrade(
    p: PeerModel,
    c: CacheModel,
    layer: Source,
    endpoints: Seq<SocketAddrV6>,
    wall: int,
)
    requires
        p.relayed_via() is Some,
    ensures
        news(p, c, layer, endpoints, wall).peer.relay is Some,
        news(p, c, layer, endpoints, wall).peer.relay->Some_0.upgrade_pending,
        news(p, c, layer, endpoints, wall).peer.relay->Some_0.upgrade_retries == 0,
        news(p, c, layer, endpoints, wall).peer.session() == p.session(),
        news(p, c, layer, endpoints, wall).cache == c,
{
}

/// When the peer has moved away from the endpoint in use and there is another
/// candidate, the node goes there at once instead of waiting for the old
/// handshake to expire.
pub proof fn law_moved_peer_followed(
    p: PeerModel,
    c: CacheModel,
    layer: Source,
    endpoints: Seq<SocketAddrV6>,
    wall: int,
)
    requires
        p.fsm.wf(),
        p.fsm.state is Connected,
        p.relayed_via() is None,
        abandons(
            PeerModel { discovered: with_report(p.discovered, layer, endpoints), ..p },
            p.fsm.state->endpoint,
        ),
        ({
            let n = news(p, c, layer, endpoints, wall);
            exists|i: int|
                0 <= i < n.peer.fsm.candidates.len() && #[trigger] n.peer.fsm.candidates[i]
                    != p.fsm.state->endpoint
        }),
    ensures
        ({
            let n = news(p, c, layer, endpoints, wall);
            &&& n.peer.fsm.state is Probing
            &&& n.peer.fsm.last_transition == wall
            &&& n.peer.fsm.current() matches Some(to) && to != p.fsm.state->endpoint
                && n.actions == fsm::try_actions(to)
        }),
{
    let ep = p.fsm.state->endpoint;
    let n = news(p, c, layer, endpoints, wall);
    let list = n.peer.fsm.candidates;
    let other = |x: SocketAddrV6| x != candidates::normal(ep);
    seqs::lemma_first_where(list, other);
    let i = choose|i: int| 0 <= i < list.len() && #[trigger] list[i] != ep;
    assert(other(list[i]));
    let p1 = PeerModel { discovered: with_report(p.discovered, layer, endpoints), ..p };
    candidates::law_candidates_bounded_and_distinct(p1.ranked(n.cache), p1.session_endpoint());
    seqs::lemma_first_distinct(candidates::normals(p1.candidates(n.cache)));
    let to = list[seqs::first_where(list, other)];
    assert(other(to));
    assert(Seq::<Action>::empty() + fsm::try_actions(to) =~= fsm::try_actions(to));
}

proof fn lemma_by_layer_members(s: Reports, d: (Source, SocketAddrV6))
    ensures
        by_layer(s).contains(d) <==> s.contains(d),
{
    let l = of_layer(s, Source::Lan);
    let g = of_layer(s, Source::Gossip);
    let h = of_layer(s, Source::Dht);
    let n = of_layer(s, Source::Ddns);
    let all = by_layer(s);
    seqs::lemma_filter_members(s, is_from(Source::Lan));
    seqs::lemma_filter_members(s, is_from(Source::Gossip));
    seqs::lemma_filter_members(s, is_from(Source::Dht));
    seqs::lemma_filter_members(s, is_from(Source::Ddns));
    if all.contains(d) {
        let k = choose|k: int| 0 <= k < all.len() && all[k] == d;
        if k < l.len() {
            assert(l[k] == d);
            assert(l.contains(d));
        } else if k < l.len() + g.len() {
            assert(g[k - l.len()] == d);
            assert(g.contains(d));
        } else if k < l.len() + g.len() + h.len() {
            assert(h[k - l.len() - g.len()] == d);
            assert(h.contains(d));
        } else {
            assert(n[k - l.len() - g.len() - h.len()] == d);
            assert(n.contains(d));
        }
    }
    if s.contains(d) {
        match d.0 {
            Source::Lan => {
                assert(is_from(Source::Lan)(d));
                assert(l.contains(d));
                let k = choose|k: int| 0 <= k < l.len() && l[k] == d;
                assert(all[k] == d);
            },
            Source::Gossip => {
                assert(is_from(Source::Gossip)(d));
                assert(g.contains(d));
                let k = choose|k: int| 0 <= k < g.len() && g[k] == d;
                assert(all[l.len() + k] == d);
            },
            Source::Dht => {
                assert(is_from(Source::Dht)(d));
                assert(h.contains(d));
                let k = choose|k: int| 0 <= k < h.len() && h[k] == d;
                assert(all[l.len() + g.len() + k] == d);
            },
            Source::Ddns => {
                assert(is_from(Source::Ddns)(d));
                assert(n.contains(d));
                let k = choose|k: int| 0 <= k < n.len() && n[k] == d;
                assert(all[l.len() + g.len() + h.len() + k] == d);
            },
        }
    }
}

/// After news, the node holds what the layer now reports, and what the other
/// layers reported before, and nothing else.
pub proof fn law_reports_are_held(
    s: Reports,
    layer: Source,
    endpoints: Seq<SocketAddrV6>,
    from: Source,
    ep: SocketAddrV6,
)
    ensures
        with_report(s, layer, endpoints).contains((from, ep)) <==> {
            ||| from == layer && endpoints.contains(ep)
            ||| from != layer && s.contains((from, ep))
        },
{
    let rest = s.filter(not_from(layer));
    let new = tagged(layer, endpoints);
    let base = rest + new;
    let d = (from, ep);
    lemma_by_layer_members(base, d);
    seqs::lemma_filter_members(s, not_from(layer));
    if base.contains(d) {
        let k = choose|k: int| 0 <= k < base.len() && base[k] == d;
        if k < rest.len() {
            assert(rest[k] == d);
            assert(rest.contains(d));
            assert(not_from(layer)(d));
        } else {
            assert(new[k - rest.len()] == d);
            assert(endpoints[k - rest.len()] == ep);
        }
    }
    if from == layer && endpoints.contains(ep) {
        let k = choose|k: int| 0 <= k < endpoints.len() && endpoints[k] == ep;
        assert(new[k] == d);
        assert(base[rest.len() + k] == d);
    }
    if from != layer && s.contains(d) {
        assert(not_from(layer)(d));
        assert(rest.contains(d));
        let k = choose|k: int| 0 <= k < rest.len() && rest[k] == d;
        assert(base[k] == d);
    }
}

/// Reports stand in the order of the layers: the local network, gossip, the
/// hash table, the domains.
pub proof fn law_reports_in_order(
    s: Reports,
    layer: Source,
    endpoints: Seq<SocketAddrV6>,
    i: int,
    j: int,
)
    requires
        0 <= i <= j < with_report(s, layer, endpoints).len(),
    ensures
        ({
            let r = with_report(s, layer, endpoints);
            &&& r[j].0 == Source::Lan ==> r[i].0 == Source::Lan
            &&& r[j].0 == Source::Gossip ==> r[i].0 == Source::Lan || r[i].0 == Source::Gossip
            &&& r[j].0 == Source::Dht ==> r[i].0 != Source::Ddns
        }),
{
    let base = s.filter(not_from(layer)) + tagged(layer, endpoints);
    let l = of_layer(base, Source::Lan);
    let g = of_layer(base, Source::Gossip);
    let h = of_layer(base, Source::Dht);
    let n = of_layer(base, Source::Ddns);
    seqs::lemma_filter_members(base, is_from(Source::Lan));
    seqs::lemma_filter_members(base, is_from(Source::Gossip));
    seqs::lemma_filter_members(base, is_from(Source::Dht));
    seqs::lemma_filter_members(base, is_from(Source::Ddns));
    let r = by_layer(base);
    let a = l.len() as int;
    let b = a + g.len();
    let c = b + h.len();
    assert forall|k: int| 0 <= k < r.len() implies (#[trigger] r[k]).0 == (if k < a {
        Source::Lan
    } else if k < b {
        Source::Gossip
    } else if k < c {
        Source::Dht
    } else {
        Source::Ddns
    }) by {
        if k < a {
            assert(l.contains(l[k]));
            assert(is_from(Source::Lan)(l[k]));
        } else if k < b {
            assert(g.contains(g[k - a]));
            assert(is_from(Source::Gossip)(g[k - a]));
        } else if k < c {
            assert(h.contains(h[k - b]));
            assert(is_from(Source::Dht)(h[k - b]));
        } else {
            assert(n.contains(n[k - c]));
            assert(is_from(Source::Ddns)(n[k - c]));
        }
    }
    assert(r[i].0 == r[i].0 && r[j].0 == r[j].0);
}

/// News is always held, whatever state the peer is in, and touches nothing of
/// the peer but its reports, its link and its state machine.
pub proof fn law_news_is_held(
    p: PeerModel,
    c: CacheModel,
    layer: Source,
    endpoints: Seq<SocketAddrV6>,
    wall: int,
)
    ensures
        ({
            let q = news(p, c, layer, endpoints, wall).peer;
            &&& q == (PeerModel {
                discovered: with_report(p.discovered, layer, endpoints),
                relay: q.relay,
                fsm: q.fsm,
                ..p
            })
            &&& p.relayed_via() is None ==> q.relay == p.relay
        }),
{
}

/// A dead address is forgotten, whichever layer brings the news: when the node
/// is connected directly to an endpoint that is not configured, and no layer
/// that can be relied on names it any more, the cache holds nothing of it
/// afterwards and is saved. Layers other than gossip can be relied on; gossip
/// can when nothing else reports. In every other case the cache stays.
pub proof fn law_dead_address_is_forgotten(
    p: PeerModel,
    c: CacheModel,
    layer: Source,
    endpoints: Seq<SocketAddrV6>,
    wall: int,
    i: int,
    other: Seq<char>,
)
    requires
        p.fsm.wf(),
        p.fsm.state is Connected,
        p.relay is None || p.relay->Some_0.session is None
            || p.relay->Some_0.session->Some_0.endpoint != p.fsm.state->endpoint,
    ensures
        ({
            let ep = p.fsm.state->endpoint;
            let n = news(p, c, layer, endpoints, wall);
            let r = n.peer.discovered;
            let configured = exists|k: int|
                0 <= k < p.configured.len() && candidates::normal(#[trigger] p.configured[k])
                    == ep;
            let others = exists|k: int| 0 <= k < r.len() && (#[trigger] r[k]).0 != Source::Gossip;
            let named = exists|k: int|
                0 <= k < r.len() && candidates::normal((#[trigger] r[k]).1) == ep && (others
                    ==> r[k].0 != Source::Gossip);
            let e = cache::remembered(n.cache, p.key);
            &&& !configured && !named ==> {
                &&& e.last_good != Some(ep)
                &&& 0 <= i < e.seen.len() ==> e.seen[i].endpoint != ep
                &&& n.first == seq![EffectModel::SaveCache]
            }
            &&& configured || named ==> n.cache == c && n.first.len() == 0
            &&& other != p.key ==> cache::remembered(n.cache, other) == cache::remembered(c, other)
        }),
{
    let ep = p.fsm.state->endpoint;
    let n = news(p, c, layer, endpoints, wall);
    let r = n.peer.discovered;
    let p1 = PeerModel { discovered: with_report(p.discovered, layer, endpoints), ..p };
    assert(r == p1.discovered);
    assert(p1.relayed_via() is None);
    let configured = exists|k: int|
        0 <= k < p.configured.len() && candidates::normal(#[trigger] p.configured[k]) == ep;
    assert(configured == state::has_endpoint(p.configured, ep));
    let others = exists|k: int| 0 <= k < r.len() && (#[trigger] r[k]).0 != Source::Gossip;
    let named = exists|k: int|
        0 <= k < r.len() && candidates::normal((#[trigger] r[k]).1) == ep && (others ==> r[k].0
            != Source::Gossip);
    assert(named == reliable(r, ep)) by {
        if named {
            let k = choose|k: int|
                0 <= k < r.len() && candidates::normal((#[trigger] r[k]).1) == ep && (others
                    ==> r[k].0 != Source::Gossip);
            if others {
                assert(r[k].0 != Source::Gossip && candidates::normal(r[k].1) == ep);
            } else {
                assert(candidates::normal(r[k].1) == ep);
            }
        }
        if reliable(r, ep) {
            if others {
                let k = choose|k: int|
                    0 <= k < r.len() && (#[trigger] r[k]).0 != Source::Gossip
                        && candidates::normal(r[k].1) == ep;
                assert(candidates::normal(r[k].1) == ep);
            } else {
                let k = choose|k: int|
                    0 <= k < r.len() && candidates::normal((#[trigger] r[k]).1) == ep;
                assert(candidates::normal(r[k].1) == ep);
            }
        }
    }
    if !configured && !named && c.dom().contains(p.key) {
        let e = cache::remembered(n.cache, p.key);
        cache::law_evict_forgets(c[p.key], ep);
        if 0 <= i < e.seen.len() {
            assert(e.seen.contains(e.seen[i]));
        }
    }
}

/// A direct connection is left exactly when its endpoint is neither configured
/// nor reported by a layer other than gossip, and there is another candidate. It
/// is then left at once, for a candidate that is set and nudged.
pub proof fn law_direct_connection_follows_reports(
    p: PeerModel,
    c: CacheModel,
    layer: Source,
    endpoints: Seq<SocketAddrV6>,
    wall: int,
)
    requires
        p.fsm.wf(),
        p.fsm.state is Connected,
        p.relay is None || p.relay->Some_0.session is None
            || p.relay->Some_0.session->Some_0.endpoint != p.fsm.state->endpoint,
    ensures
        ({
            let ep = p.fsm.state->endpoint;
            let n = news(p, c, layer, endpoints, wall);
            let r = n.peer.discovered;
            let supported = (exists|k: int|
                0 <= k < p.configured.len() && candidates::normal(#[trigger] p.configured[k])
                    == ep) || (exists|k: int|
                0 <= k < r.len() && (#[trigger] r[k]).0 != Source::Gossip && candidates::normal(
                    r[k].1,
                ) == ep);
            let elsewhere = exists|k: int|
                0 <= k < n.peer.fsm.candidates.len() && #[trigger] n.peer.fsm.candidates[k] != ep;
            if !supported && elsewhere {
                &&& n.peer.fsm.state is Probing
                &&& n.peer.fsm.last_transition == wall
                &&& n.peer.fsm.current() is Some
                &&& n.peer.fsm.current()->Some_0 != ep
                &&& n.actions == seq![
                    Action::SetEndpoint(n.peer.fsm.current()->Some_0),
                    Action::Nudge,
                ]
            } else {
                n.peer.fsm.state == p.fsm.state && n.actions.len() == 0
            }
        }),
{
    let ep = p.fsm.state->endpoint;
    let n = news(p, c, layer, endpoints, wall);
    let r = n.peer.discovered;
    let p1 = PeerModel { discovered: with_report(p.discovered, layer, endpoints), ..p };
    assert(r == p1.discovered);
    let list = n.peer.fsm.candidates;
    let other = |x: SocketAddrV6| x != candidates::normal(ep);
    seqs::lemma_first_where(list, other);
    candidates::law_candidates_bounded_and_distinct(p1.ranked(n.cache), p1.session_endpoint());
    seqs::lemma_first_distinct(candidates::normals(p1.candidates(n.cache)));
    assert((exists|k: int|
        0 <= k < r.len() && (#[trigger] r[k]).0 != Source::Gossip && candidates::normal(r[k].1)
            == ep) == authoritative(r, ep));
    assert((exists|k: int|
        0 <= k < p.configured.len() && candidates::normal(#[trigger] p.configured[k]) == ep)
        == state::has_endpoint(p.configured, ep));
    let k = seqs::first_where(list, other);
    if exists|k: int| 0 <= k < list.len() && #[trigger] list[k] != ep {
        let i = choose|i: int| 0 <= i < list.len() && #[trigger] list[i] != ep;
        assert(other(list[i]));
        assert(k < list.len());
        assert(other(list[k]));
        assert(Seq::<Action>::empty() + fsm::try_actions(list[k]) =~= fsm::try_actions(list[k]));
    } else {
        if k < list.len() {
            assert(other(list[k]));
        }
        assert(Seq::<Action>::empty() + Seq::<Action>::empty() =~= Seq::<Action>::empty());
    }
}

/// What is reported becomes a candidate: unless the peer is reached over a relay
/// alone, every reported endpoint is one after the news, while there is room.
pub proof fn law_news_becomes_a_candidate(
    p: PeerModel,
    c: CacheModel,
    layer: Source,
    endpoints: Seq<SocketAddrV6>,
    wall: int,
    i: int,
)
    requires
        p.relay is None || p.relay->Some_0.session is None || p.relay->Some_0.upgrade_pending
            || p.relayed_via() is Some,
        0 <= i < endpoints.len(),
        with_report(p.discovered, layer, endpoints).len() + p.configured.len() + cache::remembered(
            news(p, c, layer, endpoints, wall).cache,
            p.key,
        ).seen.len() <= 6,
    ensures
        news(p, c, layer, endpoints, wall).peer.fsm.candidates.contains(
            candidates::normal(endpoints[i]),
        ),
{
    let n = news(p, c, layer, endpoints, wall);
    let r = with_report(p.discovered, layer, endpoints);
    let p1 = PeerModel { discovered: r, ..p };
    let q = if p.relayed_via() is Some {
        p1.with_link(
            LinkModel { upgrade_pending: true, upgrade_retries: 0, ..p1.relay->Some_0 },
        )
    } else {
        p1
    };
    let e = cache::remembered(n.cache, p.key);
    law_reports_are_held(p.discovered, layer, endpoints, layer, endpoints[i]);
    assert(endpoints.contains(endpoints[i]));
    let k = choose|k: int| 0 <= k < r.len() && r[k] == (layer, endpoints[i]);
    peer::law_peer_candidates_come_from_everywhere(q, n.cache, k);
    let list = q.candidates(n.cache);
    let x = candidates::normal(endpoints[i]);
    assert(list.contains(x));
    let a = choose|a: int| 0 <= a < list.len() && list[a] == x;
    let m = candidates::normals(list);
    assert(m[a] == x);
    assert(m.contains(x));
    seqs::lemma_first_distinct(m);
    assert(n.peer.fsm.candidates == seqs::first_distinct(m));
}

/// News on a relay: the attempt at a direct connection begins at once when there
/// is a candidate other than the relay, with the old session dropped in the
/// device. The session at the relay stays.
pub proof fn law_news_on_relay_leaves_it(
    p: PeerModel,
    c: CacheModel,
    layer: Source,
    endpoints: Seq<SocketAddrV6>,
    wall: int,
)
    requires
        p.fsm.wf(),
        p.relay is Some,
        p.relay->Some_0.session is Some,
        p.fsm.state == (PunchState::Connected {
            endpoint: p.relay->Some_0.session->Some_0.endpoint,
        }),
    ensures
        ({
            let at = p.fsm.state->endpoint;
            let n = news(p, c, layer, endpoints, wall);
            let elsewhere = exists|k: int|
                0 <= k < n.peer.fsm.candidates.len() && #[trigger] n.peer.fsm.candidates[k] != at;
            &&& n.cache == c
            &&& n.first.len() == 0
            &&& n.peer.relay == Some(
                LinkModel { upgrade_pending: true, upgrade_retries: 0, ..p.relay->Some_0 },
            )
            &&& elsewhere ==> {
                &&& n.peer.fsm.state is Probing
                &&& n.peer.fsm.current() is Some
                &&& n.peer.fsm.current()->Some_0 != at
                &&& n.actions == seq![
                    Action::Rehandshake(n.peer.fsm.current()->Some_0),
                    Action::Nudge,
                ]
            }
            &&& !elsewhere ==> n.peer.fsm.state == p.fsm.state && n.actions.len() == 0
        }),
{
    let at = p.fsm.state->endpoint;
    let n = news(p, c, layer, endpoints, wall);
    let p1 = PeerModel { discovered: with_report(p.discovered, layer, endpoints), ..p };
    let q = p1.with_link(
        LinkModel { upgrade_pending: true, upgrade_retries: 0, ..p1.relay->Some_0 },
    );
    let list = n.peer.fsm.candidates;
    let other = |x: SocketAddrV6| x != candidates::normal(at);
    seqs::lemma_first_where(list, other);
    candidates::law_candidates_bounded_and_distinct(q.ranked(c), q.session_endpoint());
    seqs::lemma_first_distinct(candidates::normals(q.candidates(c)));
    let k = seqs::first_where(list, other);
    if exists|k: int| 0 <= k < list.len() && #[trigger] list[k] != at {
        let i = choose|i: int| 0 <= i < list.len() && #[trigger] list[i] != at;
        assert(other(list[i]));
        assert(other(list[k]));
        assert(Seq::<Action>::empty() + fsm::flush_actions(list[k]) =~= fsm::flush_actions(
            list[k],
        ));
    } else if k < list.len() {
        assert(other(list[k]));
    }
}

/// News to a peer that is not connected forgets nothing, and leads where new
/// candidates lead its state machine: one that was no candidate is tried at
/// once.
pub proof fn law_news_while_probing(
    p: PeerModel,
    c: CacheModel,
    layer: Source,
    endpoints: Seq<SocketAddrV6>,
    wall: int,
)
    requires
        p.fsm.wf(),
        p.fsm.state is Probing,
    ensures
        ({
            let n = news(p, c, layer, endpoints, wall);
            let fresh = exists|k: int|
                0 <= k < n.peer.fsm.candidates.len() && !p.fsm.candidates.contains(
                    #[trigger] n.peer.fsm.candidates[k],
                );
            &&& n.cache == c
            &&& n.first.len() == 0
            &&& n.peer.relay == p.relay
            &&& n.peer.fsm.state is Probing
            &&& fresh ==> {
                &&& n.peer.fsm.current() is Some
                &&& !p.fsm.candidates.contains(n.peer.fsm.current()->Some_0)
                &&& n.peer.fsm.last_transition == wall
                &&& n.actions == seq![
                    Action::SetEndpoint(n.peer.fsm.current()->Some_0),
                    Action::Nudge,
                ]
            }
        }),
{
    let n = news(p, c, layer, endpoints, wall);
    let p1 = PeerModel { discovered: with_report(p.discovered, layer, endpoints), ..p };
    let list = p1.candidates(c);
    let next = n.peer.fsm.candidates;
    candidates::law_candidates_bounded_and_distinct(p1.ranked(c), p1.session_endpoint());
    seqs::lemma_first_distinct(candidates::normals(list));
    assert(next == seqs::first_distinct(candidates::normals(list)));
    if exists|k: int| 0 <= k < next.len() && !p.fsm.candidates.contains(#[trigger] next[k]) {
        let k = choose|k: int| 0 <= k < next.len() && !p.fsm.candidates.contains(#[trigger] next[k]);
        let m = candidates::normals(list);
        assert(next.contains(next[k]));
        assert(m.contains(next[k]));
        let i = choose|i: int| 0 <= i < m.len() && m[i] == next[k];
        assert(candidates::normal(list[i]) == next[k]);
        fsm::law_new_endpoint_tried_at_once(p.fsm, list, wall);
    }
}

} // verus!
