//! The peers that a node starts with.

use super::effects::{self, apply_actions, Effect, EffectModel};
use super::membership::{self, dht_peers, gossip_targets, record_peers};
use super::peer::{self, CacheModel, LinkModel, PeerModel, PeerRuntime, RelayLink};
use crate::addr::{Ipv6Addr, SocketAddrV6};
use crate::cache::{self, EndpointCache};
use crate::candidates::{self, build_candidates, CandidateSources};
use crate::config::{Config, NodeConfig, Peer};
use crate::ddns::{self, updater_plan, DdnsPeer, UpdaterPlan};
use crate::fsm::{Action, FsmModel, PeerFsm, PunchState};
use crate::keys::same_key;
use crate::members::{MemberModel, MemberRecord, MembersFile};
use crate::relay_server::RelayPolicy;
use crate::seqs;
use crate::spec::{self, keepalive_opt, peer_keepalive_secs};
use crate::state::{self, unix_secs};
use crate::status;
use crate::time::SystemTime;
use vstd::prelude::*;

verus! {

/// The state machine of a peer with these configured endpoints and this key,
/// at `start`.
pub open spec fn first_fsm(
    configured: Seq<SocketAddrV6>,
    key: Seq<char>,
    c: CacheModel,
    start: int,
) -> FsmModel {
    let e = cache::remembered(c, key);
    FsmModel {
        candidates: candidates::normals(
            candidates::shortlist(
                candidates::ranking(e.last_good, seq![], configured, e.seen),
                None,
            ),
        ),
        state: PunchState::Probing { candidate_index: 0, rounds: 0 },
        last_transition: start,
    }
}

/// The position of the first peer that can be the relay for the node with this
/// key: a relay other than the node itself. The number of peers when there is
/// none.
pub open spec fn relay_index(s: Seq<Peer>, public_key: [u8; 32]) -> int {
    seqs::first_where(s, |p: Peer| p.relay && p.public_key != public_key)
}

/// The way to a peer over a relay, unused so far.
pub open spec fn idle_link(relay: Peer, public_key: [u8; 32]) -> LinkModel {
    LinkModel {
        via_name: relay.name@,
        control: relay.relay_control@,
        peer_public: public_key,
        session: None,
        pending: false,
        upgrade_pending: false,
        upgrade_retries: 0,
        last_register: None,
        retry_after: None,
    }
}

/// What the node keeps of a configured peer at the start.
pub open spec fn from_config(p: Peer, all: Seq<Peer>, keepalive: u16, c: CacheModel, start: int)
    -> PeerModel {
    let r = relay_index(all, p.public_key);
    PeerModel {
        name: p.name@,
        key: p.key_b64@,
        wg_public: p.wg_public,
        overlay: p.address,
        configured: p.endpoints@,
        routes: p.routes@,
        ddns: match p.ddns {
            Some(f) => Some(f@),
            None => None,
        },
        discovered: seq![],
        relay: if r < all.len() {
            Some(idle_link(all[r], p.public_key))
        } else {
            None
        },
        on_demand: spec::peer_interval(p, keepalive) is None,
        keepalive: spec::peer_interval(p, keepalive),
        fsm: first_fsm(p.endpoints@, p.key_b64@, c, start),
    }
}

/// What the node keeps of a member at the start.
pub open spec fn from_member(
    m: MemberModel,
    wg_public: [u8; 32],
    keepalive: u16,
    c: CacheModel,
    start: int,
) -> PeerModel {
    PeerModel {
        name: m.name,
        key: m.public_key,
        wg_public,
        overlay: m.address,
        configured: seq![],
        routes: seq![],
        ddns: None,
        discovered: seq![],
        relay: None,
        on_demand: spec::interval(keepalive) is None,
        keepalive: spec::interval(keepalive),
        fsm: first_fsm(seq![], m.public_key, c, start),
    }
}

/// Whether some configured peer has this key.
pub open spec fn is_configured_key(all: Seq<Peer>, key: Seq<char>) -> bool {
    exists|i: int| 0 <= i < all.len() && (#[trigger] all[i]).key_b64@ == key
}

/// The configured peers, then the members that are not configured. `wg_keys`
/// holds the WireGuard key of each member; a member without one has a key that
/// cannot be read, and is left out.
pub open spec fn starting_peers(
    cfg: Config,
    c: CacheModel,
    table: Seq<MemberModel>,
    wg_keys: Seq<Option<[u8; 32]>>,
    start: int,
) -> Seq<PeerModel>
    decreases table.len(),
{
    if table.len() == 0 {
        cfg.peers@.map_values(
            |p: Peer| from_config(p, cfg.peers@, cfg.node.keepalive, c, start),
        )
    } else {
        let before = starting_peers(cfg, c, table.drop_last(), wg_keys, start);
        let m = table.last();
        let k = wg_keys[table.len() - 1];
        if k is None || is_configured_key(cfg.peers@, m.public_key) {
            before
        } else {
            before.push(from_member(m, k->Some_0, cfg.node.keepalive, c, start))
        }
    }
}

fn first_machine(
    configured: &Vec<SocketAddrV6>,
    key: &String,
    cache: &EndpointCache,
    start: SystemTime,
) -> (m: PeerFsm)
    requires
        cache.wf(),
    ensures
        m@ == first_fsm(configured@, key@, cache@, start@),
        m@.wf(),
{
    let list = match cache.entry(key.as_str()) {
        Some(e) => build_candidates(
            &CandidateSources {
                last_good: e.last_good,
                discovered: &[],
                configured: configured.as_slice(),
                cached: e.seen.as_slice(),
                relay: None,
            },
        ),
        None => build_candidates(
            &CandidateSources {
                last_good: None,
                discovered: &[],
                configured: configured.as_slice(),
                cached: &[],
                relay: None,
            },
        ),
    };
    proof {
        lemma_no_reports(configured@, key@, cache@, list@);
    }
    PeerFsm::new(list, start)
}

proof fn lemma_no_reports(
    configured: Seq<SocketAddrV6>,
    key: Seq<char>,
    c: CacheModel,
    list: Seq<SocketAddrV6>,
)
    requires
        exists|d: Seq<(candidates::Source, SocketAddrV6)>, s: Seq<cache::CachedEndpoint>|
            #![trigger candidates::ranking(
                cache::remembered(c, key).last_good,
                d,
                configured,
                s,
            )]
            d.len() == 0 && s =~= cache::remembered(c, key).seen && list == candidates::shortlist(
                candidates::ranking(cache::remembered(c, key).last_good, d, configured, s),
                None,
            ),
    ensures
        list == candidates::shortlist(
            candidates::ranking(
                cache::remembered(c, key).last_good,
                seq![],
                configured,
                cache::remembered(c, key).seen,
            ),
            None,
        ),
{
    let e = cache::remembered(c, key);
    let (d, s) = choose|d: Seq<(candidates::Source, SocketAddrV6)>, s: Seq<
        cache::CachedEndpoint,
    >|
        #![trigger candidates::ranking(
            cache::remembered(c, key).last_good,
            d,
            configured,
            s,
        )]
        d.len() == 0 && s =~= cache::remembered(c, key).seen && list == candidates::shortlist(
            candidates::ranking(cache::remembered(c, key).last_good, d, configured, s),
            None,
        );
    assert(d =~= seq![]);
    assert(s == e.seen);
}

/// Finds the relay for the node with this key: the first peer that is a relay
/// and not the node itself. The number of peers when there is none.
pub fn find_relay(peers: &[Peer], public_key: &[u8; 32]) -> (k: usize)
    ensures
        k == relay_index(peers@, *public_key),
        k <= peers@.len(),
{
    let ghost hit = |p: Peer| p.relay && p.public_key != *public_key;
    let mut k: usize = 0;
    while k < peers.len() && !(peers[k].relay && !same_key(&peers[k].public_key, public_key))
        invariant
            k <= peers.len(),
            hit == (|p: Peer| p.relay && p.public_key != *public_key),
            forall|j: int| 0 <= j < k ==> !hit(#[trigger] peers@[j]),
        decreases peers.len() - k,
    {
        k = k + 1;
    }
    proof {
        seqs::lemma_first_where_is(peers@, hit, k as int);
    }
    k
}

fn configured_runtime(
    p: &Peer,
    all: &[Peer],
    keepalive: u16,
    cache: &EndpointCache,
    start: SystemTime,
) -> (r: PeerRuntime)
    requires
        cache.wf(),
    ensures
        r@ == from_config(*p, all@, keepalive, cache@, start@),
        r@.fsm.wf(),
{
    let k = find_relay(all, &p.public_key);
    let relay = if k < all.len() {
        Some(
            RelayLink {
                via_name: all[k].name.clone(),
                control: vstd::slice::slice_to_vec(all[k].relay_control.as_slice()),
                peer_public: p.public_key,
                session: None,
                pending: false,
                upgrade_pending: false,
                upgrade_retries: 0,
                last_register: None,
                retry_after: None,
            },
        )
    } else {
        None
    };
    let ddns = match &p.ddns {
        Some(f) => Some(f.clone()),
        None => None,
    };
    let interval = peer_keepalive_secs(p, keepalive);
    let r = PeerRuntime {
        name: p.name.clone(),
        key_b64: p.key_b64.clone(),
        wg_public: p.wg_public,
        overlay: p.address,
        configured: vstd::slice::slice_to_vec(p.endpoints.as_slice()),
        routes: vstd::slice::slice_to_vec(p.routes.as_slice()),
        ddns,
        discovered: Vec::new(),
        relay,
        on_demand: interval.is_none(),
        keepalive: interval,
        fsm: first_machine(&p.endpoints, &p.key_b64, cache, start),
    };
    assert(r@.discovered =~= seq![]);
    r
}

fn member_runtime(
    m: &MemberRecord,
    wg_public: [u8; 32],
    keepalive: u16,
    cache: &EndpointCache,
    start: SystemTime,
) -> (r: PeerRuntime)
    requires
        cache.wf(),
    ensures
        r@ == from_member(m@, wg_public, keepalive, cache@, start@),
        r@.fsm.wf(),
{
    let none: Vec<SocketAddrV6> = Vec::new();
    assert(none@ =~= seq![]);
    let interval = keepalive_opt(keepalive);
    let r = PeerRuntime {
        name: m.name.clone(),
        key_b64: m.public_key.clone(),
        wg_public,
        overlay: m.address,
        configured: Vec::new(),
        routes: Vec::new(),
        ddns: None,
        discovered: Vec::new(),
        relay: None,
        on_demand: interval.is_none(),
        keepalive: interval,
        fsm: first_machine(&none, &m.public_key, cache, start),
    };
    assert(r@.discovered =~= seq![]);
    assert(r@.configured =~= seq![]);
    assert(r@.routes =~= seq![]);
    r
}

fn has_configured_key(all: &[Peer], key: &String) -> (yes: bool)
    ensures
        yes == is_configured_key(all@, key@),
{
    let mut i: usize = 0;
    while i < all.len()
        invariant
            i <= all.len(),
            forall|j: int| 0 <= j < i ==> (#[trigger] all@[j]).key_b64@ != key@,
        decreases all.len() - i,
    {
        if all[i].key_b64 == *key {
            assert(all@[i as int].key_b64@ == key@);
            return true;
        }
        i = i + 1;
    }
    false
}

/// The peers that a node starts with: the configured ones, then the members
/// that are not configured. `wg_keys` holds the WireGuard key of each member,
/// or `None` where the member's key cannot be read.
pub fn initial_peers(
    cfg: &Config,
    cache: &EndpointCache,
    table: &MembersFile,
    wg_keys: &[Option<[u8; 32]>],
    start: SystemTime,
) -> (peers: Vec<PeerRuntime>)
    requires
        cache.wf(),
        wg_keys@.len() == table@.len(),
    ensures
        peer::peer_models(peers@) == starting_peers(*cfg, cache@, table@, wg_keys@, start@),
        peer::all_wf(peers@),
{
    let mut peers: Vec<PeerRuntime> = Vec::new();
    let all = cfg.peers.as_slice();
    let mut i: usize = 0;
    while i < all.len()
        invariant
            i <= all.len(),
            all@ == cfg.peers@,
            cache.wf(),
            peers.len() == i,
            peer::all_wf(peers@),
            forall|j: int|
                0 <= j < i ==> (#[trigger] peers@[j])@ == from_config(
                    all@[j],
                    all@,
                    cfg.node.keepalive,
                    cache@,
                    start@,
                ),
        decreases all.len() - i,
    {
        peers.push(configured_runtime(&all[i], all, cfg.node.keepalive, cache, start));
        i = i + 1;
    }
    let mut i: usize = 0;
    proof {
        assert(table@.take(0) =~= seq![]);
        assert(peer::peer_models(peers@) =~= starting_peers(
            *cfg,
            cache@,
            table@.take(0),
            wg_keys@,
            start@,
        ));
    }
    while i < table.members.len()
        invariant
            i <= table.members.len(),
            table.members.len() == table@.len(),
            all@ == cfg.peers@,
            cache.wf(),
            wg_keys@.len() == table@.len(),
            peer::all_wf(peers@),
            peer::peer_models(peers@) == starting_peers(
                *cfg,
                cache@,
                table@.take(i as int),
                wg_keys@,
                start@,
            ),
        decreases table.members.len() - i,
    {
        let m = &table.members[i];
        proof {
            assert(table@.take(i + 1).drop_last() =~= table@.take(i as int));
            assert(table@.take(i + 1).last() == m@);
        }
        if let Some(k) = wg_keys[i] {
            if !has_configured_key(all, &m.public_key) {
                let ghost before = peer::peer_models(peers@);
                let r = member_runtime(m, k, cfg.node.keepalive, cache, start);
                let ghost rm = r@;
                peers.push(r);
                assert(peer::peer_models(peers@) =~= before.push(rm));
            }
        }
        i = i + 1;
    }
    assert(table@.take(i as int) =~= table@);
    peers
}

/// What kicking all peers does, one after the other.
pub struct AllKicked {
    /// The peers.
    pub peers: Seq<PeerModel>,
    /// The cache.
    pub cache: CacheModel,
    /// The effects.
    pub effects: Seq<EffectModel>,
}

/// What kicking all peers does, one after the other.
pub open spec fn all_kicked(s: Seq<PeerModel>, c: CacheModel, wall: int) -> AllKicked
    decreases s.len(),
{
    if s.len() == 0 {
        AllKicked { peers: seq![], cache: c, effects: seq![] }
    } else {
        let before = all_kicked(s.drop_last(), c, wall);
        let (f, actions) = s.last().fsm.kicked(wall);
        let p = PeerModel { fsm: f, ..s.last() };
        let (c2, more) = effects::all_performed(
            p,
            before.cache,
            actions,
            state::seconds(wall) as u64,
        );
        AllKicked {
            peers: before.peers.push(p),
            cache: c2,
            effects: before.effects + more,
        }
    }
}

/// Makes every peer start or repeat its handshake at once: on start, and when
/// this node's addresses changed.
pub fn kick_all(peers: &mut Vec<PeerRuntime>, cache: &mut EndpointCache, wall: SystemTime) -> (out:
    Vec<Effect>)
    requires
        old(cache).wf(),
        peer::all_wf(old(peers)@),
    ensures
        final(cache).wf(),
        final(cache).version == old(cache).version,
        peer::all_wf(final(peers)@),
        (AllKicked {
            peers: peer::peer_models(final(peers)@),
            cache: final(cache)@,
            effects: effects::effect_models(out@),
        }) == all_kicked(peer::peer_models(old(peers)@), old(cache)@, wall@),
{
    let ghost all = peer::peer_models(peers@);
    let ghost start = cache@;
    let n = peers.len();
    let mut out: Vec<Effect> = Vec::new();
    let mut i: usize = 0;
    proof {
        assert(all.take(0) =~= seq![]);
        assert(peer::peer_models(peers@).take(0) =~= seq![]);
        assert(effects::effect_models(out@) =~= seq![]);
    }
    while i < n
        invariant
            i <= n,
            n == peers.len(),
            n == all.len(),
            cache.wf(),
            cache.version == old(cache).version,
            peer::all_wf(peers@),
            peer::peer_models(peers@).skip(i as int) == all.skip(i as int),
            (AllKicked {
                peers: peer::peer_models(peers@).take(i as int),
                cache: cache@,
                effects: effects::effect_models(out@),
            }) == all_kicked(all.take(i as int), start, wall@),
        decreases n - i,
    {
        let ghost before = peer::peer_models(peers@);
        proof {
            assert(all.take(i + 1).drop_last() =~= all.take(i as int));
            assert(before.skip(i as int)[0] == all.skip(i as int)[0]);
            assert(before[i as int] == all[i as int]);
            assert(peers@[i as int]@ == all[i as int]);
        }
        let actions = peers[i].fsm.kick(wall);
        proof {
            let after = peer::peer_models(peers@);
            assert(after =~= before.update(i as int, peers@[i as int]@));
            assert(after.take(i + 1) =~= before.take(i as int).push(peers@[i as int]@));
            assert(after.skip(i + 1) =~= before.skip(i as int).skip(1));
            assert(all.skip(i as int).skip(1) =~= all.skip(i + 1));
        }
        let ghost head = effects::effect_models(out@);
        let mut more = apply_actions(cache, &peers[i], actions.as_slice(), unix_secs(wall));
        let ghost tail = effects::effect_models(more@);
        out.append(&mut more);
        assert(effects::effect_models(out@) =~= head + tail);
        i = i + 1;
    }
    proof {
        assert(all.take(i as int) =~= all);
        assert(peer::peer_models(peers@).take(i as int) =~= peer::peer_models(peers@));
    }
    out
}

/// Whether this node publishes its address under its own domain.
pub fn publishes_record(node: &NodeConfig) -> (yes: bool)
    ensures
        yes == (node.ddns && node.ddns_fqdn is Some),
{
    node.ddns && node.ddns_fqdn.is_some()
}

/// Whether some peer has a record to look up.
pub fn looks_up_records(peers: &[PeerRuntime]) -> (yes: bool)
    ensures
        yes == has_record(peer::peer_models(peers@)),
{
    let mut i: usize = 0;
    while i < peers.len()
        invariant
            i <= peers.len(),
            forall|j: int|
                0 <= j < i ==> (#[trigger] peer::peer_models(peers@)[j]).ddns is None,
        decreases peers.len() - i,
    {
        if peers[i].ddns.is_some() {
            assert(peer::peer_models(peers@)[i as int].ddns is Some);
            return true;
        }
        i = i + 1;
    }
    false
}

/// The announcements on the local networks.
#[derive(Debug)]
pub struct LanService {
    /// The port.
    pub port: u16,
    /// The indices of the interfaces.
    pub interfaces: Vec<u32>,
}

/// The gossip through the tunnels.
#[derive(Debug)]
pub struct GossipService {
    /// The port.
    pub port: u16,
    /// Where it is broadcast to.
    pub targets: Vec<Ipv6Addr>,
}

/// The records under the nodes' own domains.
#[derive(Debug)]
pub struct RecordService {
    /// How this node's record is published, if it is.
    pub updater: Option<UpdaterPlan>,
    /// Whose records are looked up.
    pub peers: Vec<DdnsPeer>,
}

/// What a node runs beside looking after its peers.
#[derive(Debug)]
pub struct Services {
    /// Where probes are answered.
    pub probe: SocketAddrV6,
    /// Where this node is a relay, and for whom.
    pub relay: Option<(SocketAddrV6, RelayPolicy)>,
    /// The announcements on the local networks.
    pub lan: Option<LanService>,
    /// The gossip.
    pub gossip: Option<GossipService>,
    /// Which nodes are looked up in the distributed hash table.
    pub dht: Option<Vec<String>>,
    /// The records under the nodes' own domains.
    pub ddns: Option<RecordService>,
    /// Where the status is served.
    pub http: Option<SocketAddrV6>,
}

/// A port on all addresses of this node.
pub open spec fn any_address(port: u16) -> SocketAddrV6 {
    SocketAddrV6 { ip: Ipv6Addr { bits: 0 }, port, flowinfo: 0, scope_id: 0 }
}

/// Whether some peer has a record to look up.
pub open spec fn has_record(s: Seq<PeerModel>) -> bool {
    exists|i: int| 0 <= i < s.len() && (#[trigger] s[i]).ddns is Some
}

fn indices_of(interfaces: &[(u32, String)]) -> (out: Vec<u32>)
    ensures
        out@ == interfaces@.map_values(|i: (u32, String)| i.0),
{
    let mut out: Vec<u32> = Vec::new();
    let mut i: usize = 0;
    while i < interfaces.len()
        invariant
            i <= interfaces.len(),
            out.len() == i,
            forall|j: int| 0 <= j < i ==> #[trigger] out@[j] == interfaces@[j].0,
        decreases interfaces.len() - i,
    {
        out.push(interfaces[i].0);
        i = i + 1;
    }
    assert(out@ =~= interfaces@.map_values(|i: (u32, String)| i.0));
    out
}

/// What a node runs beside looking after its peers, as its configuration says.
/// `multicast` lists the interfaces that can multicast; nothing when they could
/// not be listed.
pub fn services(
    node: &NodeConfig,
    peers: &[PeerRuntime],
    multicast: Option<&[(u32, String)]>,
) -> (s: Services)
    ensures
        s.probe == any_address(node.probe_port),
        s.relay is Some <==> node.relay,
        s.relay matches Some(r) ==> {
            &&& r.0 == any_address(node.relay_port)
            &&& forall|key: [u8; 32]| #[trigger]
                r.1.admits(key) == (node.relay_allow@.len() == 0 || node.relay_allow@.contains(
                    key,
                ))
        },
        s.lan is Some <==> node.lan_discovery && multicast is Some && multicast->Some_0@.len() > 0,
        s.lan matches Some(l) ==> l.port == node.lan_port && l.interfaces@
            == multicast->Some_0@.map_values(|i: (u32, String)| i.0),
        s.gossip is Some <==> node.gossip,
        s.gossip matches Some(g) ==> g.port == node.gossip_port && g.targets@
            == membership::overlays(peer::peer_models(peers@)),
        s.dht is Some <==> node.dht,
        s.dht matches Some(keys) ==> status::texts(keys@) == membership::peer_keys(
            peer::peer_models(peers@),
        ),
        s.ddns is Some <==> (node.ddns && node.ddns_fqdn is Some) || has_record(
            peer::peer_models(peers@),
        ),
        s.ddns matches Some(d) ==> {
            &&& d.updater == if node.ddns && node.ddns_fqdn is Some {
                ddns::planned(*node)
            } else {
                None
            }
            &&& d.peers@.map_values(|p: DdnsPeer| p@) == membership::ddns_peers(
                peer::peer_models(peers@),
            )
        },
        s.http == match (node.http_addr, node.http_port) {
            (Some(ip), Some(port)) => Some(
                SocketAddrV6 { ip, port, flowinfo: 0, scope_id: 0 },
            ),
            _ => None,
        },
{
    let relay = if node.relay {
        Some(
            (
                SocketAddrV6::new(Ipv6Addr::new(0), node.relay_port, 0, 0),
                RelayPolicy::from_allowlist(
                    vstd::slice::slice_to_vec(node.relay_allow.as_slice()),
                ),
            ),
        )
    } else {
        None
    };
    let lan = match multicast {
        Some(interfaces) => if node.lan_discovery && interfaces.len() > 0 {
            Some(LanService { port: node.lan_port, interfaces: indices_of(interfaces) })
        } else {
            None
        },
        None => None,
    };
    let gossip = if node.gossip {
        Some(GossipService { port: node.gossip_port, targets: gossip_targets(peers) })
    } else {
        None
    };
    let dht = if node.dht {
        Some(dht_peers(peers))
    } else {
        None
    };
    let publish = publishes_record(node);
    let ddns = if publish || looks_up_records(peers) {
        Some(
            RecordService {
                updater: if publish {
                    updater_plan(node)
                } else {
                    None
                },
                peers: record_peers(peers),
            },
        )
    } else {
        None
    };
    let http = match (node.http_addr, node.http_port) {
        (Some(ip), Some(port)) => Some(SocketAddrV6::new(ip, port, 0, 0)),
        _ => None,
    };
    Services {
        probe: SocketAddrV6::new(Ipv6Addr::new(0), node.probe_port, 0, 0),
        relay,
        lan,
        gossip,
        dht,
        ddns,
        http,
    }
}

/// No node is its own relay.
pub proof fn law_no_node_relays_for_itself(all: Seq<Peer>, public_key: [u8; 32])
    requires
        relay_index(all, public_key) < all.len(),
    ensures
        all[relay_index(all, public_key)].relay,
        all[relay_index(all, public_key)].public_key != public_key,
{
    seqs::lemma_first_where(all, |q: Peer| q.relay && q.public_key != public_key);
}

/// The relay of a peer is the first configured relay other than the peer itself;
/// there is none only when there is no such relay.
pub proof fn law_first_other_relay(all: Seq<Peer>, public_key: [u8; 32], i: int)
    ensures
        0 <= relay_index(all, public_key) <= all.len(),
        0 <= i < all.len() && all[i].relay && all[i].public_key != public_key ==> relay_index(
            all,
            public_key,
        ) <= i,
{
    let hit = |q: Peer| q.relay && q.public_key != public_key;
    seqs::lemma_first_where(all, hit);
    if 0 <= i < relay_index(all, public_key) {
        assert(!hit(all[i]));
    }
}

/// A configured peer starts as the configuration says, with a link to its relay
/// that is not in use, probing from its first candidate.
pub proof fn law_configured_peer_starts(
    p: Peer,
    all: Seq<Peer>,
    keepalive: u16,
    c: CacheModel,
    start: int,
    r: int,
)
    requires
        0 <= r <= all.len(),
        forall|j: int|
            0 <= j < r ==> !(#[trigger] all[j]).relay || all[j].public_key == p.public_key,
        r < all.len() ==> all[r].relay && all[r].public_key != p.public_key,
    ensures
        ({
            let q = from_config(p, all, keepalive, c, start);
            let secs = match p.keepalive {
                Some(k) => k,
                None => keepalive,
            };
            &&& q.name == p.name@
            &&& q.key == p.key_b64@
            &&& q.wg_public == p.wg_public
            &&& q.overlay == p.address
            &&& q.configured == p.endpoints@
            &&& q.routes == p.routes@
            &&& q.ddns is Some <==> p.ddns is Some
            &&& p.ddns is Some ==> q.ddns == Some(p.ddns->Some_0@)
            &&& q.discovered.len() == 0
            &&& q.keepalive == if secs == 0 {
                None
            } else {
                Some(secs)
            }
            &&& q.on_demand == (secs == 0)
            &&& r == all.len() ==> q.relay is None
            &&& r < all.len() ==> q.relay == Some(
                LinkModel {
                    via_name: all[r].name@,
                    control: all[r].relay_control@,
                    peer_public: p.public_key,
                    session: None,
                    pending: false,
                    upgrade_pending: false,
                    upgrade_retries: 0,
                    last_register: None,
                    retry_after: None,
                },
            )
            &&& q.fsm.state == (PunchState::Probing { candidate_index: 0, rounds: 0 })
            &&& q.fsm.last_transition == start
        }),
{
    let hit = |q: Peer| q.relay && q.public_key != p.public_key;
    assert forall|j: int| 0 <= j < r implies !hit(#[trigger] all[j]) by {}
    seqs::lemma_first_where_is(all, hit, r);
}

/// A member that is not configured starts as its record says, without a relay or
/// routes.
pub proof fn law_member_starts(
    m: MemberModel,
    wg_public: [u8; 32],
    keepalive: u16,
    c: CacheModel,
    start: int,
)
    ensures
        ({
            let q = from_member(m, wg_public, keepalive, c, start);
            &&& q.name == m.name
            &&& q.key == m.public_key
            &&& q.wg_public == wg_public
            &&& q.overlay == m.address
            &&& q.configured.len() == 0
            &&& q.routes.len() == 0
            &&& q.ddns is None
            &&& q.discovered.len() == 0
            &&& q.relay is None
            &&& q.keepalive == if keepalive == 0 {
                None
            } else {
                Some(keepalive)
            }
            &&& q.on_demand == (keepalive == 0)
            &&& q.fsm.state == (PunchState::Probing { candidate_index: 0, rounds: 0 })
            &&& q.fsm.last_transition == start
        }),
{
}

/// What a peer tries first: the endpoint that worked last before the restart, and
/// while there is room every endpoint that is configured or remembered.
pub proof fn law_first_candidates(
    configured: Seq<SocketAddrV6>,
    key: Seq<char>,
    c: CacheModel,
    start: int,
    i: int,
)
    ensures
        ({
            let list = first_fsm(configured, key, c, start).candidates;
            let e = cache::remembered(c, key);
            &&& e.last_good matches Some(g) ==> list.len() > 0 && list[0] == candidates::normal(g)
            &&& configured.len() + e.seen.len() <= 6 ==> {
                &&& 0 <= i < configured.len() ==> list.contains(candidates::normal(configured[i]))
                &&& 0 <= i < e.seen.len() ==> list.contains(
                    candidates::normal(e.seen[i].endpoint),
                )
            }
            &&& list.len() <= 8
        }),
{
    let e = cache::remembered(c, key);
    let d: Seq<(candidates::Source, SocketAddrV6)> = seq![];
    let short = candidates::shortlist(
        candidates::ranking(e.last_good, d, configured, e.seen),
        None,
    );
    candidates::law_candidates_bounded_and_distinct(
        candidates::ranking(e.last_good, d, configured, e.seen),
        None,
    );
    assert(candidates::normals(short) =~= short);
    if e.last_good is Some {
        candidates::law_last_good_first(e.last_good->Some_0, d, configured, e.seen, None);
    }
    if configured.len() + e.seen.len() <= 6 {
        candidates::law_every_source_is_tried(e.last_good, d, configured, e.seen, None, i);
    }
}

/// Every configured peer is there from the start, in its place, and behind them
/// every member that is not configured and whose key can be read; nobody else.
pub proof fn law_everyone_is_there(
    cfg: Config,
    c: CacheModel,
    table: Seq<MemberModel>,
    wg_keys: Seq<Option<[u8; 32]>>,
    start: int,
    i: int,
)
    ensures
        ({
            let all = starting_peers(cfg, c, table, wg_keys, start);
            let n = cfg.peers@.len();
            &&& n <= all.len() <= n + table.len()
            &&& 0 <= i < n ==> all[i] == from_config(
                cfg.peers@[i],
                cfg.peers@,
                cfg.node.keepalive,
                c,
                start,
            )
            &&& 0 <= i < table.len() && wg_keys[i] is Some && (forall|j: int|
                0 <= j < n ==> (#[trigger] cfg.peers@[j]).key_b64@ != table[i].public_key)
                ==> all.contains(
                from_member(table[i], wg_keys[i]->Some_0, cfg.node.keepalive, c, start),
            )
            &&& n <= i < all.len() ==> exists|j: int|
                {
                    &&& 0 <= j < table.len()
                    &&& wg_keys[j] is Some
                    &&& all[i] == from_member(
                        #[trigger] table[j],
                        wg_keys[j]->Some_0,
                        cfg.node.keepalive,
                        c,
                        start,
                    )
                    &&& forall|q: int|
                        0 <= q < n ==> (#[trigger] cfg.peers@[q]).key_b64@ != table[j].public_key
                }
        }),
    decreases table.len(),
{
    let all = starting_peers(cfg, c, table, wg_keys, start);
    let n = cfg.peers@.len();
    if table.len() > 0 {
        let front = table.drop_last();
        let last = table.len() - 1;
        let m = table.last();
        let k = wg_keys[last];
        let before = starting_peers(cfg, c, front, wg_keys, start);
        law_everyone_is_there(cfg, c, front, wg_keys, start, i);
        if 0 <= i < table.len() && wg_keys[i] is Some && (forall|j: int|
            0 <= j < n ==> (#[trigger] cfg.peers@[j]).key_b64@ != table[i].public_key) {
            let one = from_member(table[i], wg_keys[i]->Some_0, cfg.node.keepalive, c, start);
            if i < last {
                assert(front[i] == table[i]);
                assert(before.contains(one));
                let q = choose|q: int| 0 <= q < before.len() && before[q] == one;
                assert(all[q] == one);
            } else {
                assert(!is_configured_key(cfg.peers@, m.public_key));
                assert(all[before.len() as int] == one);
            }
        }
        if n <= i < all.len() {
            if i < before.len() {
                let j = choose|j: int|
                    {
                        &&& 0 <= j < front.len()
                        &&& wg_keys[j] is Some
                        &&& before[i] == from_member(
                            #[trigger] front[j],
                            wg_keys[j]->Some_0,
                            cfg.node.keepalive,
                            c,
                            start,
                        )
                        &&& forall|q: int|
                            0 <= q < n ==> (#[trigger] cfg.peers@[q]).key_b64@
                                != front[j].public_key
                    };
                assert(table[j] == front[j]);
            } else {
                assert(table[last] == m);
                assert forall|q: int| 0 <= q < n implies (#[trigger] cfg.peers@[q]).key_b64@
                    != m.public_key by {}
            }
        }
    }
}

/// Kicking all peers reaches every one of them, forgets nothing, and leaves
/// everything but their state machines: a peer that is probing has its candidate
/// set again, and every peer that is not reached on demand is nudged where there
/// is something to reach.
pub proof fn law_every_peer_is_kicked(s: Seq<PeerModel>, c: CacheModel, wall: int, i: int)
    requires
        0 <= i < s.len(),
        s[i].fsm.wf(),
    ensures
        ({
            let all = all_kicked(s, c, wall);
            let to = SocketAddrV6 { ip: s[i].overlay, port: 9, flowinfo: 0, scope_id: 0 };
            &&& all.peers.len() == s.len()
            &&& all.peers[i] == (PeerModel {
                fsm: FsmModel { last_transition: wall, ..s[i].fsm },
                ..s[i]
            })
            &&& all.cache == c
            &&& s[i].fsm.state is Probing && s[i].fsm.candidates.len() > 0
                ==> all.effects.contains(
                EffectModel::SetEndpoint {
                    wg_public: s[i].wg_public,
                    endpoint: s[i].fsm.candidates[s[i].fsm.state->candidate_index as int],
                },
            )
            &&& !s[i].on_demand && (s[i].fsm.state is Connected || s[i].fsm.candidates.len() > 0)
                ==> all.effects.contains(EffectModel::Nudge(to))
        }),
    decreases s.len(),
{
    let front = s.drop_last();
    let last = s.len() - 1;
    let before = all_kicked(front, c, wall);
    let all = all_kicked(s, c, wall);
    lemma_kick_keeps_cache(front, c, wall);
    lemma_kick_keeps_cache(s, c, wall);
    let (f, actions) = s.last().fsm.kicked(wall);
    let p = PeerModel { fsm: f, ..s.last() };
    let secs = state::seconds(wall) as u64;
    let more = effects::all_performed(p, before.cache, actions, secs).1;
    if i < last {
        law_every_peer_is_kicked(front, c, wall, i);
        assert(front[i] == s[i]);
        lemma_contains_left(before.effects, more);
    } else {
        lemma_contains_right(before.effects, more);
        let m = s[i].fsm;
        let ep = m.candidates[m.state->candidate_index as int];
        effects::law_actions_reach_the_device(p, before.cache, ep, secs, 0);
        let nudges = effects::performed(p, before.cache, Action::Nudge, secs).1;
        match m.state {
            PunchState::Connected { .. } => {
                effects::law_actions_in_order(p, before.cache, seq![], actions, secs);
                assert(actions =~= seq![Action::Nudge]);
                assert(more == nudges);
                if !p.on_demand {
                    assert(more[0] == nudges[0]);
                }
            },
            PunchState::Probing { .. } => {
                if m.candidates.len() > 0 {
                    let a = seq![Action::SetEndpoint(ep)];
                    let b = seq![Action::Nudge];
                    effects::law_actions_in_order(p, before.cache, a, b, secs);
                    effects::law_actions_in_order(p, before.cache, seq![], b, secs);
                    assert(actions =~= a + b);
                    let set = seq![
                        EffectModel::SetEndpoint { wg_public: p.wg_public, endpoint: ep },
                    ];
                    assert(more == set + nudges);
                    assert(more[0] == set[0]);
                    if !p.on_demand {
                        assert(more[1] == nudges[0]);
                    }
                }
            },
        }
    }
}

proof fn lemma_kick_keeps_cache(s: Seq<PeerModel>, c: CacheModel, wall: int)
    ensures
        all_kicked(s, c, wall).cache == c,
        all_kicked(s, c, wall).peers.len() == s.len(),
    decreases s.len(),
{
    if s.len() > 0 {
        lemma_kick_keeps_cache(s.drop_last(), c, wall);
        let (f, actions) = s.last().fsm.kicked(wall);
        let p = PeerModel { fsm: f, ..s.last() };
        let secs = state::seconds(wall) as u64;
        reveal_with_fuel(effects::all_performed, 3);
    }
}

proof fn lemma_contains_left(a: Seq<EffectModel>, b: Seq<EffectModel>)
    ensures
        forall|e: EffectModel| a.contains(e) ==> #[trigger] (a + b).contains(e),
{
    assert forall|e: EffectModel| a.contains(e) implies #[trigger] (a + b).contains(e) by {
        let k = choose|k: int| 0 <= k < a.len() && a[k] == e;
        assert((a + b)[k] == e);
    }
}

proof fn lemma_contains_right(a: Seq<EffectModel>, b: Seq<EffectModel>)
    ensures
        forall|e: EffectModel| b.contains(e) ==> #[trigger] (a + b).contains(e),
{
    assert forall|e: EffectModel| b.contains(e) implies #[trigger] (a + b).contains(e) by {
        let k = choose|k: int| 0 <= k < b.len() && b[k] == e;
        assert((a + b)[a.len() + k] == e);
    }
}

/// Records are looked up as soon as any peer has one.
pub proof fn law_any_record_is_looked_up(s: Seq<PeerModel>, i: int)
    ensures
        0 <= i < s.len() && s[i].ddns is Some ==> has_record(s),
        (forall|j: int| 0 <= j < s.len() ==> (#[trigger] s[j]).ddns is None) ==> !has_record(s),
{
}

/// A service on a port listens on all addresses.
pub proof fn law_services_listen_everywhere(port: u16)
    ensures
        any_address(port).ip.bits == 0,
        any_address(port).port == port,
        any_address(port).flowinfo == 0,
        any_address(port).scope_id == 0,
{
}

} // verus!
