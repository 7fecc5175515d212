//! The node as a whole: what it knows, and what each event does to it.

use super::discovery::{self, on_discovered};
use super::effects::{self, Effect, EffectModel};
use super::membership::{self, on_membership_event};
use super::peer::{self, CacheModel, PeerModel, PeerRuntime};
use super::relaying::{self, on_relay_registered, RelayCommand, RelayRegistered};
use super::startup::{self, initial_peers, kick_all};
use super::tick::{self, tick_once, PeerTick};
use crate::addr::Ipv6Addr;
use crate::cache::EndpointCache;
use crate::candidates::DiscoveredEndpoints;
use crate::config::Config;
use crate::gossip::{GossipEvent, NodeKey};
use crate::members::{self, MemberModel, MembersFile};
use crate::seqs;
use crate::state;
use crate::time::{Instant, SystemTime};
use crate::wg::types::PeerStatus;
use vstd::prelude::*;

verus! {

/// What a node knows.
#[derive(Debug)]
pub struct Node {
    /// The peers.
    pub peers: Vec<PeerRuntime>,
    /// The endpoints that worked.
    pub cache: EndpointCache,
    /// The members that gossip admitted.
    pub members: MembersFile,
    /// The keepalive interval of members, in seconds; 0 switches it off.
    pub keepalive: u16,
}

/// Something that happened.
#[derive(Debug)]
pub enum Event {
    /// The node was started.
    Started,
    /// A second has passed. The device reports this, or nothing when it could
    /// not be read.
    Tick(Option<Vec<PeerStatus>>),
    /// The addresses of this node changed.
    AddressesChanged,
    /// A rendezvous layer reports where a peer is.
    Discovered(DiscoveredEndpoints),
    /// Gossip brought news.
    Gossip(GossipEvent),
    /// A registration at a relay is done.
    RelayRegistered(RelayRegistered),
}

/// Which rendezvous layers should tell the others of this node at once.
#[derive(Clone, Copy, PartialEq, Eq, Debug, Structural)]
pub struct Kicks {
    /// The announcements on the local networks.
    pub lan: bool,
    /// The gossip.
    pub gossip: bool,
    /// The distributed hash table.
    pub dht: bool,
    /// The records under the nodes' own domains.
    pub ddns: bool,
}

/// What an event asks for.
#[derive(Debug)]
pub struct Step {
    /// The effects.
    pub effects: Vec<Effect>,
    /// What a tick asks for, peer by peer; after the effects of a peer its
    /// routes are brought up to date.
    pub ticks: Vec<PeerTick>,
    /// Which rendezvous layers to kick.
    pub kicks: Kicks,
}

/// What a [`Node`] knows.
pub struct NodeModel {
    /// The peers.
    pub peers: Seq<PeerModel>,
    /// The endpoints that worked.
    pub cache: CacheModel,
    /// The members that gossip admitted.
    pub members: Seq<MemberModel>,
    /// The keepalive interval of members, in seconds; 0 switches it off.
    pub keepalive: u16,
}

/// What an event leads to.
pub struct StepModel {
    /// The node.
    pub node: NodeModel,
    /// The effects.
    pub effects: Seq<EffectModel>,
    /// The effects of a tick, peer by peer.
    pub tick_effects: Seq<Seq<EffectModel>>,
    /// What to do about the relays, peer by peer.
    pub commands: Seq<RelayCommand>,
    /// Which rendezvous layers to kick.
    pub kicks: Kicks,
}

/// No rendezvous layer is kicked.
pub open spec fn no_kicks() -> Kicks {
    Kicks { lan: false, gossip: false, dht: false, ddns: false }
}

/// What an event leads to that asks for effects only.
pub open spec fn plain(node: NodeModel, effects: Seq<EffectModel>) -> StepModel {
    StepModel { node, effects, tick_effects: seq![], commands: seq![], kicks: no_kicks() }
}

/// What it leads to that a layer reports where a peer is. A peer that the node
/// does not know is none of its business.
pub open spec fn told(n: NodeModel, d: DiscoveredEndpoints, wall: int) -> StepModel {
    let k = peer::peer_index(n.peers, d.peer_key@);
    if k < n.peers.len() {
        let news = discovery::news(n.peers[k], n.cache, d.source, d.endpoints@, wall);
        let (cache, more) = effects::all_performed(
            news.peer,
            news.cache,
            news.actions,
            state::seconds(wall) as u64,
        );
        plain(
            NodeModel { peers: n.peers.update(k, news.peer), cache, ..n },
            news.first + more,
        )
    } else {
        plain(n, seq![])
    }
}

/// What a change of membership leads to.
pub open spec fn changed(n: NodeModel, c: membership::MembershipChange) -> StepModel {
    plain(NodeModel { peers: c.peers, members: c.members, ..n }, c.effects)
}

/// What it leads to that a registration is done.
pub open spec fn registered(n: NodeModel, done: RelayRegistered, now: int, wall: int)
    -> StepModel {
    let k = peer::peer_index(n.peers, done.peer_key@);
    if k < n.peers.len() {
        let (p, actions) = relaying::registered(n.peers[k], done.session, n.cache, now, wall);
        let (cache, more) = effects::all_performed(
            p,
            n.cache,
            actions,
            state::seconds(wall) as u64,
        );
        plain(NodeModel { peers: n.peers.update(k, p), cache, ..n }, more)
    } else {
        plain(n, seq![])
    }
}

/// What kicking all peers leads to.
pub open spec fn kicked(n: NodeModel, wall: int) -> StepModel {
    let k = startup::all_kicked(n.peers, n.cache, wall);
    plain(NodeModel { peers: k.peers, cache: k.cache, ..n }, k.effects)
}

/// What an event leads to.
///
/// A tick that brings up a connection makes gossip speak at once: what it said
/// before may have been lost for want of a tunnel. A change of addresses makes
/// every layer speak.
pub open spec fn stepped(n: NodeModel, event: Event, now: int, wall: int) -> StepModel {
    match event {
        Event::Started => kicked(n, wall),
        Event::Tick(None) => plain(n, seq![]),
        Event::Tick(Some(statuses)) => {
            let t = tick::all_ticked(n.peers, n.cache, statuses@, now, wall);
            StepModel {
                node: NodeModel { peers: t.peers, cache: t.cache, ..n },
                effects: seq![],
                tick_effects: t.effects,
                commands: t.commands,
                kicks: Kicks { gossip: t.connected, ..no_kicks() },
            }
        },
        Event::AddressesChanged => StepModel {
            kicks: Kicks { lan: true, gossip: true, dht: true, ddns: true },
            ..kicked(n, wall)
        },
        Event::Discovered(d) => told(n, d, wall),
        Event::Gossip(GossipEvent::Discovered(d)) => told(n, d, wall),
        Event::Gossip(GossipEvent::MemberAdmitted { node, name, address }) => changed(
            n,
            membership::admission(
                n.peers,
                n.members,
                node.b64@,
                node.wg_public,
                name@,
                address,
                n.keepalive,
                wall,
            ),
        ),
        Event::Gossip(GossipEvent::Revoked { node }) => changed(
            n,
            membership::revocation(n.peers, n.members, node.b64@, node.wg_public),
        ),
        Event::RelayRegistered(done) => registered(n, done, now, wall),
    }
}

/// The effects of ticks, peer by peer.
pub open spec fn tick_effects(s: Seq<PeerTick>) -> Seq<Seq<EffectModel>> {
    s.map_values(|t: PeerTick| effects::effect_models(t.effects@))
}

/// The relay commands of ticks, peer by peer.
pub open spec fn tick_commands(s: Seq<PeerTick>) -> Seq<RelayCommand> {
    s.map_values(|t: PeerTick| t.command)
}

impl Step {
    /// Whether this is what an event leads to that makes a node of `node`.
    pub open spec fn follows(self, node: NodeModel, model: StepModel) -> bool {
        &&& node == model.node
        &&& effects::effect_models(self.effects@) == model.effects
        &&& tick_effects(self.ticks@) == model.tick_effects
        &&& tick_commands(self.ticks@) == model.commands
        &&& self.kicks == model.kicks
    }

    fn of(effects: Vec<Effect>) -> (s: Step)
        ensures
            effects::effect_models(s.effects@) == effects::effect_models(effects@),
            tick_effects(s.ticks@) == Seq::<Seq<EffectModel>>::empty(),
            tick_commands(s.ticks@) == Seq::<RelayCommand>::empty(),
            s.kicks == no_kicks(),
    {
        let s = Step {
            effects,
            ticks: Vec::new(),
            kicks: Kicks { lan: false, gossip: false, dht: false, ddns: false },
        };
        assert(tick_effects(s.ticks@) =~= Seq::<Seq<EffectModel>>::empty());
        assert(tick_commands(s.ticks@) =~= Seq::<RelayCommand>::empty());
        s
    }
}

impl View for Node {
    type V = NodeModel;

    open spec fn view(&self) -> NodeModel {
        NodeModel {
            peers: peer::peer_models(self.peers@),
            cache: self.cache@,
            members: self.members@,
            keepalive: self.keepalive,
        }
    }
}

impl Node {
    /// Whether the cache and the state machine of every peer are sound.
    pub open spec fn wf(&self) -> bool {
        self.cache.wf() && peer::all_wf(self.peers@)
    }

    /// The node that a configuration, the cache and the members make. `wg_keys`
    /// holds the WireGuard key of each member, or `None` where the member's key
    /// cannot be read.
    pub fn new(
        cfg: &Config,
        cache: EndpointCache,
        members: MembersFile,
        wg_keys: &[Option<[u8; 32]>],
        start: SystemTime,
    ) -> (n: Self)
        requires
            cache.wf(),
            wg_keys@.len() == members@.len(),
        ensures
            n.wf(),
            n@ == (NodeModel {
                peers: startup::starting_peers(*cfg, cache@, members@, wg_keys@, start@),
                cache: cache@,
                members: members@,
                keepalive: cfg.node.keepalive,
            }),
            n.cache.version == cache.version,
            n.members.version == members.version,
    {
        let peers = initial_peers(cfg, &cache, &members, wg_keys, start);
        Node { peers, cache, members, keepalive: cfg.node.keepalive }
    }

    fn told(&mut self, update: DiscoveredEndpoints, wall: SystemTime) -> (s: Step)
        requires
            old(self).wf(),
        ensures
            final(self).wf(),
            final(self).cache.version == old(self).cache.version,
            final(self).members.version == old(self).members.version,
            s.follows(final(self)@, told(old(self)@, update, wall@)),
    {
        let effects = on_discovered(&mut self.peers, &mut self.cache, update, wall);
        assert(effects@.len() == 0 ==> effects::effect_models(effects@) =~= seq![]);
        Step::of(effects)
    }

    /// Takes an event: brings what the node knows up to date, and says what
    /// has to be done.
    pub fn step(&mut self, event: Event, now: Instant, wall: SystemTime) -> (s: Step)
        requires
            old(self).wf(),
        ensures
            final(self).wf(),
            final(self).cache.version == old(self).cache.version,
            final(self).members.version == old(self).members.version,
            s.follows(final(self)@, stepped(old(self)@, event, now@, wall@)),
    {
        match event {
            Event::Started => Step::of(kick_all(&mut self.peers, &mut self.cache, wall)),
            Event::AddressesChanged => {
                let effects = kick_all(&mut self.peers, &mut self.cache, wall);
                let s = Step::of(effects);
                Step {
                    kicks: Kicks { lan: true, gossip: true, dht: true, ddns: true },
                    ..s
                }
            },
            Event::Tick(None) => {
                let none: Vec<Effect> = Vec::new();
                assert(effects::effect_models(none@) =~= seq![]);
                Step::of(none)
            },
            Event::Tick(Some(statuses)) => {
                let out = tick_once(
                    &mut self.peers,
                    &mut self.cache,
                    statuses.as_slice(),
                    now,
                    wall,
                );
                let s = Step {
                    effects: Vec::new(),
                    ticks: out.peers,
                    kicks: Kicks {
                        lan: false,
                        gossip: out.any_connected,
                        dht: false,
                        ddns: false,
                    },
                };
                proof {
                    let t = tick::all_ticked(
                        old(self)@.peers,
                        old(self)@.cache,
                        statuses@,
                        now@,
                        wall@,
                    );
                    assert(effects::effect_models(s.effects@) =~= seq![]);
                    assert(tick_effects(s.ticks@) =~= t.effects);
                    assert(tick_commands(s.ticks@) =~= t.commands);
                }
                s
            },
            Event::Discovered(update) => self.told(update, wall),
            Event::Gossip(GossipEvent::Discovered(update)) => self.told(update, wall),
            Event::Gossip(other) => Step::of(
                on_membership_event(
                    &mut self.peers,
                    &mut self.members,
                    other,
                    self.keepalive,
                    wall,
                ),
            ),
            Event::RelayRegistered(done) => {
                let effects = on_relay_registered(
                    &mut self.peers,
                    &mut self.cache,
                    done,
                    now,
                    wall,
                );
                assert(effects@.len() == 0 ==> effects::effect_models(effects@) =~= seq![]);
                Step::of(effects)
            },
        }
    }
}

/// Whether two peers are the same node with the same settings.
pub open spec fn same_peer(a: PeerModel, b: PeerModel) -> bool {
    &&& a.name == b.name
    &&& a.key == b.key
    &&& a.wg_public == b.wg_public
    &&& a.overlay == b.overlay
    &&& a.configured == b.configured
    &&& a.routes == b.routes
    &&& a.ddns == b.ddns
    &&& a.on_demand == b.on_demand
    &&& a.keepalive == b.keepalive
}

/// Whether two lists hold the same peers in the same order.
pub open spec fn same_peers(s: Seq<PeerModel>, t: Seq<PeerModel>) -> bool {
    &&& s.len() == t.len()
    &&& forall|i: int| 0 <= i < s.len() ==> same_peer(#[trigger] s[i], t[i])
}

proof fn lemma_ticked(
    s: Seq<PeerModel>,
    c: CacheModel,
    statuses: Seq<PeerStatus>,
    now: int,
    wall: int,
)
    ensures
        ({
            let t = tick::all_ticked(s, c, statuses, now, wall);
            &&& same_peers(s, t.peers)
            &&& t.effects.len() == s.len()
            &&& t.commands.len() == s.len()
        }),
    decreases s.len(),
{
    if s.len() > 0 {
        lemma_ticked(s.drop_last(), c, statuses, now, wall);
        let before = tick::all_ticked(s.drop_last(), c, statuses, now, wall);
        let t = tick::all_ticked(s, c, statuses, now, wall);
        assert forall|i: int| 0 <= i < s.len() implies same_peer(#[trigger] s[i], t.peers[i]) by {
            if i < s.len() - 1 {
                assert(same_peer(s.drop_last()[i], before.peers[i]));
            }
        }
    }
}

proof fn lemma_kicked(s: Seq<PeerModel>, c: CacheModel, wall: int)
    ensures
        same_peers(s, startup::all_kicked(s, c, wall).peers),
    decreases s.len(),
{
    if s.len() > 0 {
        lemma_kicked(s.drop_last(), c, wall);
        let before = startup::all_kicked(s.drop_last(), c, wall);
        let t = startup::all_kicked(s, c, wall);
        assert forall|i: int| 0 <= i < s.len() implies same_peer(#[trigger] s[i], t.peers[i]) by {
            if i < s.len() - 1 {
                assert(same_peer(s.drop_last()[i], before.peers[i]));
            }
        }
    }
}

/// Only gossip's word on membership adds or removes peers: whatever else
/// happens, the node has the same peers with the same settings as before, and
/// the same members.
pub proof fn law_only_gossip_changes_membership(n: NodeModel, event: Event, now: int, wall: int)
    requires
        event matches Event::Gossip(g) ==> g is Discovered,
    ensures
        same_peers(n.peers, stepped(n, event, now, wall).node.peers),
        n.members == stepped(n, event, now, wall).node.members,
{
    match event {
        Event::Started => lemma_kicked(n.peers, n.cache, wall),
        Event::AddressesChanged => lemma_kicked(n.peers, n.cache, wall),
        Event::Tick(Some(statuses)) => lemma_ticked(n.peers, n.cache, statuses@, now, wall),
        Event::Tick(None) => {},
        Event::Discovered(d) => lemma_told(n, d, wall),
        Event::Gossip(GossipEvent::Discovered(d)) => lemma_told(n, d, wall),
        Event::Gossip(_) => {},
        Event::RelayRegistered(done) => {
            let k = peer::peer_index(n.peers, done.peer_key@);
            seqs::lemma_first_where(n.peers, |p: PeerModel| p.key == done.peer_key@);
            if k < n.peers.len() {
                let p = relaying::registered(n.peers[k], done.session, n.cache, now, wall).0;
                assert(same_peer(n.peers[k], p));
            }
        },
    }
}

proof fn lemma_told(n: NodeModel, d: DiscoveredEndpoints, wall: int)
    ensures
        same_peers(n.peers, told(n, d, wall).node.peers),
        n.members == told(n, d, wall).node.members,
{
    let k = peer::peer_index(n.peers, d.peer_key@);
    seqs::lemma_first_where(n.peers, |p: PeerModel| p.key == d.peer_key@);
    if k < n.peers.len() {
        let p = discovery::news(n.peers[k], n.cache, d.source, d.endpoints@, wall).peer;
        assert(same_peer(n.peers[k], p));
    }
}

/// Whatever happens, no key comes to belong to two peers.
pub proof fn law_peers_stay_distinct(n: NodeModel, event: Event, now: int, wall: int)
    requires
        membership::distinct_peers(n.peers),
    ensures
        membership::distinct_peers(stepped(n, event, now, wall).node.peers),
{
    let after = stepped(n, event, now, wall).node.peers;
    match event {
        Event::Gossip(GossipEvent::MemberAdmitted { node, name, address }) => {
            membership::law_membership_keeps_peers_distinct(
                n.peers,
                n.members,
                node.b64@,
                node.wg_public,
                name@,
                address,
                n.keepalive,
                wall,
            );
        },
        Event::Gossip(GossipEvent::Revoked { node }) => {
            let none = crate::addr::Ipv6Addr { bits: 0 };
            membership::law_membership_keeps_peers_distinct(
                n.peers,
                n.members,
                node.b64@,
                node.wg_public,
                seq![],
                none,
                n.keepalive,
                wall,
            );
        },
        _ => {
            law_only_gossip_changes_membership(n, event, now, wall);
            assert forall|i: int, j: int| 0 <= i < j < after.len() implies (#[trigger] after[i]).key
                != (#[trigger] after[j]).key by {
                assert(same_peer(n.peers[i], after[i]));
                assert(same_peer(n.peers[j], after[j]));
            }
        },
    }
}

/// A tick asks for something about each peer once, in order, and a device that
/// cannot be read makes it ask for nothing and change nothing.
pub proof fn law_tick_looks_at_every_peer_once(
    n: NodeModel,
    statuses: Vec<PeerStatus>,
    now: int,
    wall: int,
)
    ensures
        stepped(n, Event::Tick(Some(statuses)), now, wall).tick_effects.len() == n.peers.len(),
        stepped(n, Event::Tick(Some(statuses)), now, wall).commands.len() == n.peers.len(),
        stepped(n, Event::Tick(None), now, wall) == plain(n, seq![]),
{
    lemma_ticked(n.peers, n.cache, statuses@, now, wall);
}

/// What is reported of a node that is no peer changes nothing and asks for
/// nothing.
pub proof fn law_news_of_strangers_ignored(
    n: NodeModel,
    d: DiscoveredEndpoints,
    now: int,
    wall: int,
)
    requires
        forall|i: int| 0 <= i < n.peers.len() ==> (#[trigger] n.peers[i]).key != d.peer_key@,
    ensures
        stepped(n, Event::Discovered(d), now, wall) == plain(n, seq![]),
        stepped(n, Event::Gossip(GossipEvent::Discovered(d)), now, wall) == plain(n, seq![]),
{
    let hit = |p: PeerModel| p.key == d.peer_key@;
    seqs::lemma_first_where(n.peers, hit);
    let k = peer::peer_index(n.peers, d.peer_key@);
    if k < n.peers.len() {
        assert(hit(n.peers[k]));
    }
}

/// A revoked node is shut out until gossip admits it again: no other event
/// makes it a peer or a member.
pub proof fn law_revoked_stays_out(
    n: NodeModel,
    key: Seq<char>,
    event: Event,
    now: int,
    wall: int,
)
    requires
        peer::peer_index(n.peers, key) == n.peers.len(),
        event matches Event::Gossip(GossipEvent::MemberAdmitted { node, .. }) ==> node.b64@ != key,
    ensures
        ({
            let after = stepped(n, event, now, wall).node.peers;
            peer::peer_index(after, key) == after.len()
        }),
        members::member(n.members, key) is None ==> members::member(
            stepped(n, event, now, wall).node.members,
            key,
        ) is None,
{
    let hit = |p: PeerModel| p.key == key;
    let after = stepped(n, event, now, wall).node.peers;
    seqs::lemma_first_where(n.peers, hit);
    seqs::lemma_first_where(after, hit);
    let q = peer::peer_index(after, key);
    match event {
        Event::Gossip(GossipEvent::MemberAdmitted { node, name, address }) => {
            members::law_admission_keeps_others(
                n.members,
                MemberModel { name: name@, public_key: node.b64@, address },
                key,
            );
        },
        Event::Gossip(GossipEvent::Revoked { node }) => {
            if node.b64@ == key {
                members::law_removed_is_gone(n.members, key);
            } else {
                members::law_removal_keeps_others(n.members, node.b64@, key);
            }
        },
        _ => law_only_gossip_changes_membership(n, event, now, wall),
    }
    if q < after.len() {
        assert(hit(after[q]));
        match event {
            Event::Gossip(GossipEvent::MemberAdmitted { node, name, address }) => {
                if q < n.peers.len() {
                    assert(!hit(n.peers[q]));
                }
            },
            Event::Gossip(GossipEvent::Revoked { node }) => {
                let other = |p: PeerModel| p.key == node.b64@;
                seqs::lemma_first_where(n.peers, other);
                let k = peer::peer_index(n.peers, node.b64@);
                if k < n.peers.len() && q >= k {
                    assert(!hit(n.peers[q + 1]));
                } else {
                    assert(!hit(n.peers[q]));
                }
            },
            _ => {
                assert(same_peer(n.peers[q], after[q]));
                assert(!hit(n.peers[q]));
            },
        }
    }
}

/// Whether no peer has tried to leave its relay more often than allowed.
pub open spec fn within_attempts(s: Seq<PeerModel>) -> bool {
    forall|i: int|
        0 <= i < s.len() ==> ((#[trigger] s[i]).relay matches Some(l) ==> l.upgrade_retries
            <= peer::UPGRADE_MAX_RETRIES)
}

proof fn lemma_ticked_attempts(
    s: Seq<PeerModel>,
    c: CacheModel,
    statuses: Seq<PeerStatus>,
    now: int,
    wall: int,
)
    requires
        within_attempts(s),
    ensures
        within_attempts(tick::all_ticked(s, c, statuses, now, wall).peers),
    decreases s.len(),
{
    if s.len() > 0 {
        let front = s.drop_last();
        assert(within_attempts(front)) by {
            assert forall|i: int| 0 <= i < front.len() implies ((#[trigger] front[i]).relay matches Some(
                l,
            ) ==> l.upgrade_retries <= peer::UPGRADE_MAX_RETRIES) by {
                assert(front[i] == s[i]);
            }
        }
        lemma_ticked_attempts(front, c, statuses, now, wall);
        let before = tick::all_ticked(front, c, statuses, now, wall);
        let last = s.last();
        let status = tick::status_of(statuses, last.wg_public);
        let (f, first) = last.fsm.ticked(wall, tick::observed(status));
        let p1 = PeerModel { fsm: f, ..last };
        let c1 = effects::all_performed(p1, before.cache, first, state::seconds(wall) as u64).0;
        assert(s[s.len() - 1] == last);
        if p1.relay is Some {
            relaying::law_upgrade_attempts_bounded(p1, c1, now, wall);
        }
        assert(tick::peer_ticked(last, before.cache, status, now, wall).peer == relaying::driven(
            p1,
            c1,
            now,
            wall,
        ).0);
    }
}

proof fn lemma_kicked_attempts(s: Seq<PeerModel>, c: CacheModel, wall: int)
    requires
        within_attempts(s),
    ensures
        within_attempts(startup::all_kicked(s, c, wall).peers),
    decreases s.len(),
{
    if s.len() > 0 {
        let front = s.drop_last();
        assert(within_attempts(front)) by {
            assert forall|i: int| 0 <= i < front.len() implies ((#[trigger] front[i]).relay matches Some(
                l,
            ) ==> l.upgrade_retries <= peer::UPGRADE_MAX_RETRIES) by {
                assert(front[i] == s[i]);
            }
        }
        lemma_kicked_attempts(front, c, wall);
        assert(s[s.len() - 1] == s.last());
    }
}

/// Whatever happens, no peer tries to leave its relay more often than allowed
/// before something new is heard of it.
pub proof fn law_attempts_stay_bounded(n: NodeModel, event: Event, now: int, wall: int)
    requires
        within_attempts(n.peers),
    ensures
        within_attempts(stepped(n, event, now, wall).node.peers),
{
    let after = stepped(n, event, now, wall).node.peers;
    match event {
        Event::Started => lemma_kicked_attempts(n.peers, n.cache, wall),
        Event::AddressesChanged => lemma_kicked_attempts(n.peers, n.cache, wall),
        Event::Tick(Some(statuses)) => lemma_ticked_attempts(
            n.peers,
            n.cache,
            statuses@,
            now,
            wall,
        ),
        Event::Gossip(GossipEvent::Revoked { node }) => {
            let k = peer::peer_index(n.peers, node.b64@);
            seqs::lemma_first_where(n.peers, |p: PeerModel| p.key == node.b64@);
            assert forall|i: int| 0 <= i < after.len() implies ((#[trigger] after[i]).relay matches Some(
                l,
            ) ==> l.upgrade_retries <= peer::UPGRADE_MAX_RETRIES) by {
                if k < n.peers.len() && i >= k {
                    assert(after[i] == n.peers[i + 1]);
                } else {
                    assert(after[i] == n.peers[i]);
                }
            }
        },
        Event::Discovered(d) => lemma_told_attempts(n, d, wall),
        Event::Gossip(GossipEvent::Discovered(d)) => lemma_told_attempts(n, d, wall),
        Event::RelayRegistered(done) => {
            let k = peer::peer_index(n.peers, done.peer_key@);
            seqs::lemma_first_where(n.peers, |p: PeerModel| p.key == done.peer_key@);
            if k < n.peers.len() {
                assert(n.peers[k].relay matches Some(l) ==> l.upgrade_retries
                    <= peer::UPGRADE_MAX_RETRIES);
            }
        },
        _ => {},
    }
}

proof fn lemma_told_attempts(n: NodeModel, d: DiscoveredEndpoints, wall: int)
    requires
        within_attempts(n.peers),
    ensures
        within_attempts(told(n, d, wall).node.peers),
{
    let k = peer::peer_index(n.peers, d.peer_key@);
    seqs::lemma_first_where(n.peers, |p: PeerModel| p.key == d.peer_key@);
    if k < n.peers.len() {
        assert(n.peers[k].relay matches Some(l) ==> l.upgrade_retries
            <= peer::UPGRADE_MAX_RETRIES);
    }
}

/// News reaches the peer that it is about and no other, whether gossip brings it
/// or another layer: the peer becomes what the news makes of it, what the news
/// asks for comes first, then what the peer's state machine asks for.
pub proof fn law_news_reaches_its_peer(
    n: NodeModel,
    d: DiscoveredEndpoints,
    now: int,
    wall: int,
    k: int,
    i: int,
)
    requires
        0 <= k < n.peers.len(),
        n.peers[k].key == d.peer_key@,
        forall|j: int| 0 <= j < k ==> (#[trigger] n.peers[j]).key != d.peer_key@,
    ensures
        ({
            let s = stepped(n, Event::Discovered(d), now, wall);
            let news = discovery::news(n.peers[k], n.cache, d.source, d.endpoints@, wall);
            let (cache, more) = effects::all_performed(
                news.peer,
                news.cache,
                news.actions,
                state::seconds(wall) as u64,
            );
            &&& s == stepped(n, Event::Gossip(GossipEvent::Discovered(d)), now, wall)
            &&& s.node.peers.len() == n.peers.len()
            &&& s.node.peers[k] == news.peer
            &&& 0 <= i < n.peers.len() && i != k ==> s.node.peers[i] == n.peers[i]
            &&& s.node.cache == cache
            &&& s.node.members == n.members
            &&& s.effects == news.first + more
            &&& s.kicks == (Kicks { lan: false, gossip: false, dht: false, ddns: false })
        }),
{
    let hit = |p: PeerModel| p.key == d.peer_key@;
    assert forall|j: int| 0 <= j < k implies !hit(#[trigger] n.peers[j]) by {}
    seqs::lemma_first_where_is(n.peers, hit, k);
}

/// The outcome of a registration reaches the peer that it was for and no other;
/// that of a node that is no peer changes nothing.
pub proof fn law_registration_reaches_its_peer(
    n: NodeModel,
    done: RelayRegistered,
    now: int,
    wall: int,
    k: int,
    i: int,
)
    requires
        0 <= k <= n.peers.len(),
        k < n.peers.len() ==> n.peers[k].key == done.peer_key@,
        forall|j: int| 0 <= j < k ==> (#[trigger] n.peers[j]).key != done.peer_key@,
    ensures
        ({
            let s = stepped(n, Event::RelayRegistered(done), now, wall);
            &&& s.node.peers.len() == n.peers.len()
            &&& 0 <= i < n.peers.len() && i != k ==> s.node.peers[i] == n.peers[i]
            &&& s.node.members == n.members
            &&& k == n.peers.len() ==> s.node == n && s.effects.len() == 0
            &&& k < n.peers.len() ==> {
                let (p, actions) = relaying::registered(
                    n.peers[k],
                    done.session,
                    n.cache,
                    now,
                    wall,
                );
                &&& s.node.peers[k] == p
                &&& (s.node.cache, s.effects) == effects::all_performed(
                    p,
                    n.cache,
                    actions,
                    state::seconds(wall) as u64,
                )
            }
        }),
{
    let hit = |p: PeerModel| p.key == done.peer_key@;
    assert forall|j: int| 0 <= j < k implies !hit(#[trigger] n.peers[j]) by {}
    seqs::lemma_first_where_is(n.peers, hit, k);
}

/// On start and when this node's addresses change, every peer is kicked; a
/// change of addresses makes every layer speak besides, a start does not.
pub proof fn law_every_layer_speaks_on_new_addresses(n: NodeModel, now: int, wall: int)
    ensures
        ({
            let a = stepped(n, Event::Started, now, wall);
            let b = stepped(n, Event::AddressesChanged, now, wall);
            let k = startup::all_kicked(n.peers, n.cache, wall);
            &&& a.node == b.node
            &&& a.effects == b.effects
            &&& a.effects == k.effects
            &&& a.node.peers == k.peers
            &&& a.node.cache == k.cache
            &&& a.node.members == n.members
            &&& a.kicks == (Kicks { lan: false, gossip: false, dht: false, ddns: false })
            &&& b.kicks == (Kicks { lan: true, gossip: true, dht: true, ddns: true })
        }),
{
}

/// A tick makes gossip speak exactly when a connection came up or moved, and no
/// other layer.
pub proof fn law_new_connection_makes_gossip_speak(
    n: NodeModel,
    statuses: Vec<PeerStatus>,
    now: int,
    wall: int,
)
    ensures
        ({
            let s = stepped(n, Event::Tick(Some(statuses)), now, wall);
            let t = tick::all_ticked(n.peers, n.cache, statuses@, now, wall);
            &&& s.kicks == (Kicks { lan: false, gossip: t.connected, dht: false, ddns: false })
            &&& s.node.peers == t.peers
            &&& s.node.cache == t.cache
            &&& s.node.members == n.members
            &&& s.tick_effects == t.effects
            &&& s.commands == t.commands
            &&& s.effects.len() == 0
        }),
{
}

/// Membership follows gossip: an admission makes a peer of a node that is none,
/// a revocation unmakes it. Neither touches the cache or makes a layer speak out
/// of turn.
pub proof fn law_membership_follows_gossip(
    n: NodeModel,
    node: NodeKey,
    name: String,
    address: Ipv6Addr,
    now: int,
    wall: int,
)
    requires
        forall|j: int| 0 <= j < n.peers.len() ==> (#[trigger] n.peers[j]).key != node.b64@,
    ensures
        ({
            let s = stepped(
                n,
                Event::Gossip(GossipEvent::MemberAdmitted { node, name, address }),
                now,
                wall,
            );
            let r = stepped(s.node, Event::Gossip(GossipEvent::Revoked { node }), now, wall);
            &&& s.node.peers.len() == n.peers.len() + 1
            &&& s.node.peers.last().key == node.b64@
            &&& s.node.peers.last().wg_public == node.wg_public
            &&& s.node.peers.last().overlay == address
            &&& s.node.peers.drop_last() == n.peers
            &&& s.node.cache == n.cache
            &&& s.effects.contains(EffectModel::SaveMembers)
            &&& s.kicks == (Kicks { lan: false, gossip: false, dht: false, ddns: false })
            &&& r.node.peers == n.peers
            &&& r.node.cache == n.cache
            &&& members::member(r.node.members, node.b64@) is None
            &&& r.effects.len() > 0
            &&& r.effects[0] == (EffectModel::RemovePeer { wg_public: node.wg_public })
            &&& r.effects.contains(EffectModel::SaveMembers)
        }),
{
    membership::law_admitted_becomes_a_peer(
        n.peers,
        n.members,
        node.b64@,
        node.wg_public,
        name@,
        address,
        n.keepalive,
        wall,
        0,
    );
    let s = stepped(
        n,
        Event::Gossip(GossipEvent::MemberAdmitted { node, name, address }),
        now,
        wall,
    );
    let r = stepped(s.node, Event::Gossip(GossipEvent::Revoked { node }), now, wall);
    let hit = |p: PeerModel| p.key == node.b64@;
    assert forall|j: int| 0 <= j < n.peers.len() implies !hit(#[trigger] n.peers[j]) by {}
    seqs::lemma_first_where_is(n.peers, hit, n.peers.len() as int);
    assert(s.node.peers.drop_last() =~= n.peers);
    assert(s.effects[1] == EffectModel::SaveMembers);
    let k = n.peers.len() as int;
    assert forall|j: int| 0 <= j < k implies (#[trigger] s.node.peers[j]).key != node.b64@ by {
        assert(s.node.peers[j] == n.peers[j]);
    }
    membership::law_revocation_takes_only_that_node(
        s.node.peers,
        s.node.members,
        node.b64@,
        node.wg_public,
        k,
        0,
        node.b64@,
    );
    members::law_member_is_listed(s.node.members, node.b64@, 0);
    let m = members::member(s.node.members, node.b64@)->Some_0;
    let j = choose|j: int| 0 <= j < s.node.members.len() && s.node.members[j] == m;
    assert(s.node.members[j].public_key == node.b64@);
    assert(r.effects[1] == EffectModel::SaveMembers);
    seqs::lemma_first_where_is(s.node.peers, hit, k);
    assert(r.node.peers =~= n.peers);
}

} // verus!
