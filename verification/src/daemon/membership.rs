//! Members that come and go while the node runs.

use super::effects::{self, Effect, EffectModel};
use super::peer::{self, find_peer, PeerModel, PeerRuntime};
use crate::addr::Ipv6Addr;
use crate::candidates::{build_candidates, CandidateSources};
use crate::ddns::{DdnsPeer, DdnsPeerModel};
use crate::fsm::{FsmModel, PeerFsm, PunchState};
use crate::gossip::{GossipEvent, NodeKey};
use crate::members::{self, site_of, MemberModel, MemberRecord, MembersFile};
use crate::route;
use crate::seqs;
use crate::spec::{self, keepalive_opt};
use crate::status;
use crate::time::SystemTime;
use crate::wg::types::{PeerSpec, PeerSpecModel};
use vstd::prelude::*;

verus! {

/// The overlay addresses of the peers.
pub open spec fn overlays(s: Seq<PeerModel>) -> Seq<Ipv6Addr> {
    s.map_values(|p: PeerModel| p.overlay)
}

/// The keys of the peers.
pub open spec fn peer_keys(s: Seq<PeerModel>) -> Seq<Seq<char>> {
    s.map_values(|p: PeerModel| p.key)
}

/// The peers as the lookup of records sees them.
pub open spec fn ddns_peers(s: Seq<PeerModel>) -> Seq<DdnsPeerModel> {
    s.map_values(|p: PeerModel| DdnsPeerModel { key_b64: p.key, fqdn: p.ddns })
}

/// What the rendezvous layers have to be told after the peers changed.
pub open spec fn announcements(s: Seq<PeerModel>) -> Seq<EffectModel> {
    seq![
        EffectModel::UpdateGossipTargets(overlays(s)),
        EffectModel::UpdateDhtPeers(peer_keys(s)),
        EffectModel::UpdateDdnsPeers(ddns_peers(s)),
    ]
}

/// A peer that gossip admitted: nothing is known of it but its address.
pub open spec fn newcomer(
    key: Seq<char>,
    wg_public: [u8; 32],
    name: Seq<char>,
    address: Ipv6Addr,
    keepalive: u16,
    wall: int,
) -> PeerModel {
    PeerModel {
        name,
        key,
        wg_public,
        overlay: address,
        configured: seq![],
        routes: seq![],
        ddns: None,
        discovered: seq![],
        relay: None,
        on_demand: spec::interval(keepalive) is None,
        keepalive: spec::interval(keepalive),
        fsm: FsmModel {
            candidates: seq![],
            state: PunchState::Probing { candidate_index: 0, rounds: 0 },
            last_transition: wall,
        },
    }
}

/// What the device is told of a peer that gossip admitted.
pub open spec fn admitted_spec(wg_public: [u8; 32], address: Ipv6Addr, keepalive: u16)
    -> PeerSpecModel {
    PeerSpecModel {
        wg_public,
        endpoint: None,
        allowed_ips: seq![(members::site(address), route::SITE_PREFIX_LEN)],
        persistent_keepalive: spec::interval(keepalive),
    }
}

/// What a change of membership leads to: the peers, the members, the effects.
pub struct MembershipChange {
    /// The peers.
    pub peers: Seq<PeerModel>,
    /// The members.
    pub members: Seq<MemberModel>,
    /// The effects.
    pub effects: Seq<EffectModel>,
}

/// What the admission of a node leads to. One that is a peer already changes
/// nothing.
pub open spec fn admission(
    peers: Seq<PeerModel>,
    table: Seq<MemberModel>,
    key: Seq<char>,
    wg_public: [u8; 32],
    name: Seq<char>,
    address: Ipv6Addr,
    keepalive: u16,
    wall: int,
) -> MembershipChange {
    if peer::peer_index(peers, key) < peers.len() {
        MembershipChange { peers, members: table, effects: seq![] }
    } else {
        let now = peers.push(newcomer(key, wg_public, name, address, keepalive, wall));
        MembershipChange {
            peers: now,
            members: members::with_member(
                table,
                MemberModel { name, public_key: key, address },
            ),
            effects: seq![
                EffectModel::AddPeer(admitted_spec(wg_public, address, keepalive)),
                EffectModel::SaveMembers,
            ] + announcements(now),
        }
    }
}

/// What the revocation of a node leads to. The device is told in any case, so
/// that the node is shut out at once.
pub open spec fn revocation(
    peers: Seq<PeerModel>,
    table: Seq<MemberModel>,
    key: Seq<char>,
    wg_public: [u8; 32],
) -> MembershipChange {
    let k = peer::peer_index(peers, key);
    let now = if k < peers.len() {
        peers.remove(k)
    } else {
        peers
    };
    let saved = if members::member(table, key) is Some {
        seq![EffectModel::SaveMembers]
    } else {
        seq![]
    };
    MembershipChange {
        peers: now,
        members: members::without_member(table, key),
        effects: seq![EffectModel::RemovePeer { wg_public }] + saved + announcements(now),
    }
}

/// Where gossip is broadcast to: the overlay addresses of all peers.
pub fn gossip_targets(peers: &[PeerRuntime]) -> (targets: Vec<Ipv6Addr>)
    ensures
        targets@ == overlays(peer::peer_models(peers@)),
{
    let mut targets: Vec<Ipv6Addr> = Vec::new();
    let mut i: usize = 0;
    while i < peers.len()
        invariant
            i <= peers.len(),
            targets.len() == i,
            forall|j: int|
                0 <= j < i ==> #[trigger] targets@[j] == peer::peer_models(peers@)[j].overlay,
        decreases peers.len() - i,
    {
        targets.push(peers[i].overlay);
        i = i + 1;
    }
    assert(targets@ =~= overlays(peer::peer_models(peers@)));
    targets
}

/// What is looked up in the distributed hash table: the keys of all peers.
pub fn dht_peers(peers: &[PeerRuntime]) -> (keys: Vec<String>)
    ensures
        status::texts(keys@) == peer_keys(peer::peer_models(peers@)),
{
    let mut keys: Vec<String> = Vec::new();
    let mut i: usize = 0;
    while i < peers.len()
        invariant
            i <= peers.len(),
            keys.len() == i,
            forall|j: int|
                0 <= j < i ==> (#[trigger] keys@[j])@ == peer::peer_models(peers@)[j].key,
        decreases peers.len() - i,
    {
        keys.push(peers[i].key_b64.clone());
        i = i + 1;
    }
    assert(status::texts(keys@) =~= peer_keys(peer::peer_models(peers@)));
    keys
}

/// Whose records are looked up: those of all peers that have one.
pub fn record_peers(peers: &[PeerRuntime]) -> (records: Vec<DdnsPeer>)
    ensures
        records@.map_values(|d: DdnsPeer| d@) == ddns_peers(peer::peer_models(peers@)),
{
    let ghost models = peer::peer_models(peers@);
    let mut records: Vec<DdnsPeer> = Vec::new();
    let mut i: usize = 0;
    while i < peers.len()
        invariant
            i <= peers.len(),
            models == peer::peer_models(peers@),
            records.len() == i,
            forall|j: int|
                0 <= j < i ==> (#[trigger] records@[j])@ == (DdnsPeerModel {
                    key_b64: models[j].key,
                    fqdn: models[j].ddns,
                }),
        decreases peers.len() - i,
    {
        let p = &peers[i];
        let fqdn = match &p.ddns {
            Some(f) => Some(f.clone()),
            None => None,
        };
        records.push(DdnsPeer { key_b64: p.key_b64.clone(), fqdn });
        i = i + 1;
    }
    assert(records@.map_values(|d: DdnsPeer| d@) =~= ddns_peers(models));
    records
}

fn announce_peers(peers: &Vec<PeerRuntime>, out: &mut Vec<Effect>)
    ensures
        effects::effect_models(final(out)@) == effects::effect_models(old(out)@) + announcements(
            peer::peer_models(peers@),
        ),
{
    let ghost before = out@;
    out.push(Effect::UpdateGossipTargets(gossip_targets(peers.as_slice())));
    out.push(Effect::UpdateDhtPeers(dht_peers(peers.as_slice())));
    out.push(Effect::UpdateDdnsPeers(record_peers(peers.as_slice())));
    assert(effects::effect_models(out@) =~= effects::effect_models(before) + announcements(
        peer::peer_models(peers@),
    ));
}

fn let_in(
    peers: &mut Vec<PeerRuntime>,
    table: &mut MembersFile,
    node: NodeKey,
    name: String,
    address: Ipv6Addr,
    keepalive: u16,
    wall: SystemTime,
) -> (out: Vec<Effect>)
    requires
        peer::all_wf(old(peers)@),
    ensures
        peer::all_wf(final(peers)@),
        final(table).version == old(table).version,
        (MembershipChange {
            peers: peer::peer_models(final(peers)@),
            members: final(table)@,
            effects: effects::effect_models(out@),
        }) == admission(
            peer::peer_models(old(peers)@),
            old(table)@,
            node.b64@,
            node.wg_public,
            name@,
            address,
            keepalive,
            wall@,
        ),
{
    let mut out: Vec<Effect> = Vec::new();
    assert(effects::effect_models(out@) =~= seq![]);
    if find_peer(peers.as_slice(), &node.b64) < peers.len() {
        return out;
    }
    let ghost before = peer::peer_models(peers@);
    let mut allowed_ips: Vec<(Ipv6Addr, u8)> = Vec::new();
    allowed_ips.push((site_of(address), route::SITE_PREFIX_LEN));
    assert(allowed_ips@ =~= seq![(members::site(address), route::SITE_PREFIX_LEN)]);
    out.push(
        Effect::AddPeer(
            PeerSpec {
                wg_public: node.wg_public,
                endpoint: None,
                allowed_ips,
                persistent_keepalive: keepalive_opt(keepalive),
            },
        ),
    );
    let candidates = build_candidates(&CandidateSources::default());
    proof {
        lemma_nothing_to_try(candidates@);
    }
    let p = PeerRuntime {
        name: name.clone(),
        key_b64: node.b64.clone(),
        wg_public: node.wg_public,
        overlay: address,
        configured: Vec::new(),
        routes: Vec::new(),
        ddns: None,
        discovered: Vec::new(),
        relay: None,
        on_demand: keepalive_opt(keepalive).is_none(),
        keepalive: keepalive_opt(keepalive),
        fsm: PeerFsm::new(candidates, wall),
    };
    let ghost m = newcomer(node.b64@, node.wg_public, name@, address, keepalive, wall@);
    assert(p@.fsm.candidates =~= seq![]);
    assert(p@.configured =~= seq![]);
    assert(p@.routes =~= seq![]);
    assert(p@.discovered =~= seq![]);
    assert(p@ == m);
    peers.push(p);
    assert(peer::peer_models(peers@) =~= before.push(m));
    table.upsert(MemberRecord { name, public_key: node.b64, address });
    out.push(Effect::SaveMembers);
    let ghost head = effects::effect_models(out@);
    assert(head =~= seq![
        EffectModel::AddPeer(admitted_spec(node.wg_public, address, keepalive)),
        EffectModel::SaveMembers,
    ]);
    announce_peers(peers, &mut out);
    out
}

proof fn lemma_nothing_to_try(list: Seq<crate::addr::SocketAddrV6>)
    requires
        exists|s: CandidateSources<'_>|
            #![trigger s.list()]
            list == s.list() && s.last_good is None && s.discovered@.len() == 0
                && s.configured@.len() == 0 && s.cached@.len() == 0 && s.relay is None,
    ensures
        list.len() == 0,
{
    let s = choose|s: CandidateSources<'_>|
        #![trigger s.list()]
        list == s.list() && s.last_good is None && s.discovered@.len() == 0 && s.configured@.len()
            == 0 && s.cached@.len() == 0 && s.relay is None;
    assert(s.ranked().len() == 0);
    seqs::lemma_first_distinct(crate::candidates::normals(s.ranked()));
}

fn revoke(peers: &mut Vec<PeerRuntime>, table: &mut MembersFile, node: &NodeKey) -> (out: Vec<
    Effect,
>)
    requires
        peer::all_wf(old(peers)@),
    ensures
        peer::all_wf(final(peers)@),
        final(table).version == old(table).version,
        (MembershipChange {
            peers: peer::peer_models(final(peers)@),
            members: final(table)@,
            effects: effects::effect_models(out@),
        }) == revocation(
            peer::peer_models(old(peers)@),
            old(table)@,
            node.b64@,
            node.wg_public,
        ),
{
    let mut out: Vec<Effect> = Vec::new();
    out.push(Effect::RemovePeer { wg_public: node.wg_public });
    let ghost first = EffectModel::RemovePeer { wg_public: node.wg_public };
    assert(effects::effect_models(out@) =~= seq![first]);
    let k = find_peer(peers.as_slice(), &node.b64);
    let ghost before = peer::peer_models(peers@);
    if k < peers.len() {
        peers.remove(k);
        assert(peer::peer_models(peers@) =~= before.remove(k as int));
    }
    let removed = table.remove(node.b64.as_str());
    if removed {
        out.push(Effect::SaveMembers);
        assert(effects::effect_models(out@) =~= seq![first] + seq![EffectModel::SaveMembers]);
    } else {
        assert(seq![first] + Seq::<EffectModel>::empty() =~= seq![first]);
    }
    announce_peers(peers, &mut out);
    out
}

/// Takes the news that gossip admitted or revoked a node. (News of endpoints
/// is a matter for [`super::discovery`].)
pub fn on_membership_event(
    peers: &mut Vec<PeerRuntime>,
    table: &mut MembersFile,
    event: GossipEvent,
    keepalive: u16,
    wall: SystemTime,
) -> (out: Vec<Effect>)
    requires
        peer::all_wf(old(peers)@),
        !(event is Discovered),
    ensures
        peer::all_wf(final(peers)@),
        final(table).version == old(table).version,
        ({
            let change = MembershipChange {
                peers: peer::peer_models(final(peers)@),
                members: final(table)@,
                effects: effects::effect_models(out@),
            };
            let before = peer::peer_models(old(peers)@);
            &&& event matches GossipEvent::MemberAdmitted { node, name, address } ==> change
                == admission(
                before,
                old(table)@,
                node.b64@,
                node.wg_public,
                name@,
                address,
                keepalive,
                wall@,
            )
            &&& event matches GossipEvent::Revoked { node } ==> change == revocation(
                before,
                old(table)@,
                node.b64@,
                node.wg_public,
            )
        }),
{
    match event {
        GossipEvent::MemberAdmitted { node, name, address } => let_in(
            peers,
            table,
            node,
            name,
            address,
            keepalive,
            wall,
        ),
        GossipEvent::Revoked { node } => revoke(peers, table, &node),
        GossipEvent::Discovered(_) => Vec::new(),
    }
}

/// Admitting the same node again changes nothing and asks for nothing.
pub proof fn law_admission_idempotent(
    peers: Seq<PeerModel>,
    table: Seq<MemberModel>,
    key: Seq<char>,
    wg_public: [u8; 32],
    name: Seq<char>,
    address: Ipv6Addr,
    keepalive: u16,
    wall: int,
    later: int,
)
    ensures
        ({
            let once = admission(peers, table, key, wg_public, name, address, keepalive, wall);
            admission(
                once.peers,
                once.members,
                key,
                wg_public,
                name,
                address,
                keepalive,
                later,
            ) == (MembershipChange {
                peers: once.peers,
                members: once.members,
                effects: seq![],
            })
        }),
{
    let hit = |p: PeerModel| p.key == key;
    let once = admission(peers, table, key, wg_public, name, address, keepalive, wall);
    seqs::lemma_first_where(peers, hit);
    seqs::lemma_first_where(once.peers, hit);
    if peer::peer_index(peers, key) == peers.len() {
        assert(hit(once.peers[peers.len() as int]));
    }
}

/// Whether no key belongs to two peers.
pub open spec fn distinct_peers(s: Seq<PeerModel>) -> bool {
    forall|i: int, j: int| 0 <= i < j < s.len() ==> (#[trigger] s[i]).key != (#[trigger] s[j]).key
}

/// Admission and revocation never let a key belong to two peers.
pub proof fn law_membership_keeps_peers_distinct(
    peers: Seq<PeerModel>,
    table: Seq<MemberModel>,
    key: Seq<char>,
    wg_public: [u8; 32],
    name: Seq<char>,
    address: Ipv6Addr,
    keepalive: u16,
    wall: int,
)
    requires
        distinct_peers(peers),
    ensures
        distinct_peers(
            admission(peers, table, key, wg_public, name, address, keepalive, wall).peers,
        ),
        distinct_peers(revocation(peers, table, key, wg_public).peers),
{
    let hit = |p: PeerModel| p.key == key;
    seqs::lemma_first_where(peers, hit);
    let k = peer::peer_index(peers, key);
    let a = admission(peers, table, key, wg_public, name, address, keepalive, wall).peers;
    assert forall|i: int, j: int| 0 <= i < j < a.len() implies (#[trigger] a[i]).key != (
    #[trigger] a[j]).key by {
        if j < peers.len() {
            assert(peers[i].key != peers[j].key);
        } else {
            assert(!hit(peers[i]));
        }
    }
    let r = revocation(peers, table, key, wg_public).peers;
    assert forall|i: int, j: int| 0 <= i < j < r.len() implies (#[trigger] r[i]).key != (
    #[trigger] r[j]).key by {
        let i2 = if k < peers.len() && i >= k {
            i + 1
        } else {
            i
        };
        let j2 = if k < peers.len() && j >= k {
            j + 1
        } else {
            j
        };
        assert(peers[i2].key != peers[j2].key);
    }
}

/// A revoked node is gone: it is neither a peer nor a member, and the device
/// is told to remove it before anything else.
pub proof fn law_revoked_is_shut_out(
    peers: Seq<PeerModel>,
    table: Seq<MemberModel>,
    key: Seq<char>,
    wg_public: [u8; 32],
)
    requires
        distinct_peers(peers),
    ensures
        ({
            let r = revocation(peers, table, key, wg_public);
            &&& peer::peer_index(r.peers, key) == r.peers.len()
            &&& members::member(r.members, key) is None
            &&& r.effects[0] == (EffectModel::RemovePeer { wg_public })
        }),
{
    let hit = |p: PeerModel| p.key == key;
    let r = revocation(peers, table, key, wg_public);
    let k = peer::peer_index(peers, key);
    seqs::lemma_first_where(peers, hit);
    seqs::lemma_first_where(r.peers, hit);
    members::law_removed_is_gone(table, key);
    let q = peer::peer_index(r.peers, key);
    if q < r.peers.len() {
        assert(hit(r.peers[q]));
        if k < peers.len() {
            assert(hit(peers[k]));
            if q < k {
                assert(r.peers[q] == peers[q]);
                assert(!hit(peers[q]));
            } else {
                assert(r.peers[q] == peers[q + 1]);
                assert(peers[k].key != peers[q + 1].key);
            }
        } else {
            assert(!hit(peers[q]));
        }
    }
}

/// After the peers changed, every layer is told of all of them: their overlay
/// addresses, their keys, and the names of their records.
pub proof fn law_layers_are_told_of_everyone(s: Seq<PeerModel>, i: int)
    ensures
        announcements(s).len() == 3,
        announcements(s)[0] is UpdateGossipTargets,
        announcements(s)[1] is UpdateDhtPeers,
        announcements(s)[2] is UpdateDdnsPeers,
        announcements(s)[0]->UpdateGossipTargets_0.len() == s.len(),
        announcements(s)[1]->UpdateDhtPeers_0.len() == s.len(),
        announcements(s)[2]->UpdateDdnsPeers_0.len() == s.len(),
        0 <= i < s.len() ==> {
            &&& announcements(s)[0]->UpdateGossipTargets_0[i] == s[i].overlay
            &&& announcements(s)[1]->UpdateDhtPeers_0[i] == s[i].key
            &&& announcements(s)[2]->UpdateDdnsPeers_0[i].key_b64 == s[i].key
            &&& announcements(s)[2]->UpdateDdnsPeers_0[i].fqdn == s[i].ddns
        },
{
}

/// A node that is no peer yet becomes one when it is admitted: behind the
/// others, reachable under its overlay address, with nothing known of where it
/// is. It is a member under its name, the device gets it with the addresses of
/// its site, the members are saved, and every layer is told.
pub proof fn law_admitted_becomes_a_peer(
    peers: Seq<PeerModel>,
    table: Seq<MemberModel>,
    key: Seq<char>,
    wg_public: [u8; 32],
    name: Seq<char>,
    address: Ipv6Addr,
    keepalive: u16,
    wall: int,
    i: int,
)
    requires
        forall|j: int| 0 <= j < peers.len() ==> (#[trigger] peers[j]).key != key,
    ensures
        ({
            let r = admission(peers, table, key, wg_public, name, address, keepalive, wall);
            let p = r.peers.last();
            let interval = if keepalive == 0 {
                None
            } else {
                Some(keepalive)
            };
            &&& r.peers.len() == peers.len() + 1
            &&& 0 <= i < peers.len() ==> r.peers[i] == peers[i]
            &&& p.key == key
            &&& p.wg_public == wg_public
            &&& p.name == name
            &&& p.overlay == address
            &&& p.keepalive == interval
            &&& p.on_demand == (keepalive == 0)
            &&& p.relay is None
            &&& p.ddns is None
            &&& p.configured.len() == 0
            &&& p.routes.len() == 0
            &&& p.discovered.len() == 0
            &&& p.fsm.candidates.len() == 0
            &&& p.fsm.state == (PunchState::Probing { candidate_index: 0, rounds: 0 })
            &&& p.fsm.last_transition == wall
            &&& members::member(r.members, key) == Some(
                MemberModel { name, public_key: key, address },
            )
            &&& r.effects.len() == 5
            &&& r.effects[0] is AddPeer
            &&& r.effects[0]->AddPeer_0.wg_public == wg_public
            &&& r.effects[0]->AddPeer_0.endpoint is None
            &&& r.effects[0]->AddPeer_0.persistent_keepalive == interval
            &&& r.effects[0]->AddPeer_0.allowed_ips == seq![(members::site(address), 64u8)]
            &&& r.effects[1] == EffectModel::SaveMembers
            &&& r.effects.skip(2) == announcements(r.peers)
        }),
{
    let hit = |p: PeerModel| p.key == key;
    assert forall|j: int| 0 <= j < peers.len() implies !hit(#[trigger] peers[j]) by {}
    seqs::lemma_first_where_is(peers, hit, peers.len() as int);
    members::law_admitted_is_found(table, MemberModel { name, public_key: key, address });
    let r = admission(peers, table, key, wg_public, name, address, keepalive, wall);
    assert(r.effects.skip(2) =~= announcements(r.peers));
}

/// Admitting a node that is a peer already changes nothing and asks for nothing.
pub proof fn law_admitting_a_peer_changes_nothing(
    peers: Seq<PeerModel>,
    table: Seq<MemberModel>,
    key: Seq<char>,
    wg_public: [u8; 32],
    name: Seq<char>,
    address: Ipv6Addr,
    keepalive: u16,
    wall: int,
    k: int,
)
    requires
        0 <= k < peers.len(),
        peers[k].key == key,
    ensures
        ({
            let r = admission(peers, table, key, wg_public, name, address, keepalive, wall);
            r.peers == peers && r.members == table && r.effects.len() == 0
        }),
{
    peer::law_peer_found_by_key(peers, key, k);
}

/// A revocation takes the node, and only it, out of the peers and the members;
/// the device drops it first, the members are saved when it was one, and every
/// layer is told.
pub proof fn law_revocation_takes_only_that_node(
    peers: Seq<PeerModel>,
    table: Seq<MemberModel>,
    key: Seq<char>,
    wg_public: [u8; 32],
    k: int,
    i: int,
    other: Seq<char>,
)
    requires
        0 <= k <= peers.len(),
        forall|j: int| 0 <= j < k ==> (#[trigger] peers[j]).key != key,
        k < peers.len() ==> peers[k].key == key,
    ensures
        ({
            let r = revocation(peers, table, key, wg_public);
            let was_member = exists|j: int|
                0 <= j < table.len() && (#[trigger] table[j]).public_key == key;
            &&& r.peers.len() == if k < peers.len() {
                peers.len() - 1
            } else {
                peers.len() as int
            }
            &&& 0 <= i < k ==> r.peers[i] == peers[i]
            &&& k < i < peers.len() ==> r.peers[i - 1] == peers[i]
            &&& members::member(r.members, key) is None
            &&& other != key ==> members::member(r.members, other) == members::member(table, other)
            &&& r.effects.len() > 0 && r.effects[0] == (EffectModel::RemovePeer { wg_public })
            &&& was_member ==> r.effects.len() == 5 && r.effects[1] == EffectModel::SaveMembers
                && r.effects.skip(2) == announcements(r.peers)
            &&& !was_member ==> r.effects.len() == 4 && r.effects.skip(1) == announcements(r.peers)
        }),
{
    let hit = |p: PeerModel| p.key == key;
    assert forall|j: int| 0 <= j < k implies !hit(#[trigger] peers[j]) by {}
    seqs::lemma_first_where_is(peers, hit, k);
    members::law_removed_is_gone(table, key);
    if other != key {
        members::law_removal_keeps_others(table, key, other);
    }
    let r = revocation(peers, table, key, wg_public);
    let is_member = |m: MemberModel| m.public_key == key;
    seqs::lemma_first_where(table, is_member);
    let q = members::member_index(table, key);
    let was_member = exists|j: int|
        0 <= j < table.len() && (#[trigger] table[j]).public_key == key;
    if was_member {
        let j = choose|j: int| 0 <= j < table.len() && (#[trigger] table[j]).public_key == key;
        if q == table.len() {
            assert(!is_member(table[j]));
        }
        assert(r.effects.skip(2) =~= announcements(r.peers));
    } else {
        if q < table.len() {
            assert(is_member(table[q]));
        }
        assert(r.effects.skip(1) =~= announcements(r.peers));
    }
}

} // verus!
