//! Discovery on the local network.
//!
//! Every node multicasts an announcement of where it is. This module decides
//! which announcements to believe and what to tell of them.

use crate::addr::{self, is_usable_endpoint_addr, Ipv6Addr, SocketAddrV6};
use crate::candidates::{same_list, DiscoveredEndpoints, Source};
use crate::relay_server::{self, within_skew};
use crate::seqs;
use crate::table::{self, Table};
use vstd::prelude::*;

verus! {

/// How often a node announces itself, in nanoseconds: 5 s.
pub const ANNOUNCE_INTERVAL: u64 = 5_000_000_000;

/// How long an announcement is believed, in seconds.
pub const ENTRY_TTL: u64 = 60;

/// How many nodes are kept track of.
pub const MAX_TRACKED: usize = 64;

/// How far the time in an announcement may be off, in seconds.
pub const SEQ_SKEW_TOLERANCE_SECS: u64 = 300;

/// How many addresses an announcement carries.
pub const BEACON_MAX_ADDRS: usize = 4;

/// An announcement whose authentication was checked.
#[derive(Debug)]
pub struct Beacon {
    /// The base64 of the sender's public key.
    pub node_public_key: String,
    /// The sender's WireGuard port.
    pub listen_port: u16,
    /// When the announcement was made, in Unix seconds.
    pub seq: u64,
    /// The sender's addresses.
    pub addresses: Vec<Ipv6Addr>,
}

/// The news that a peer's endpoints on the local network changed.
pub type LanUpdate = DiscoveredEndpoints;

#[derive(Debug)]
struct Entry {
    endpoints: Vec<SocketAddrV6>,
    seq: u64,
    last_seen_unix: u64,
}

/// What is known of a node.
pub struct LanEntry {
    /// Its endpoints.
    pub endpoints: Seq<SocketAddrV6>,
    /// The time of its latest announcement.
    pub seq: u64,
    /// When that announcement was heard, in Unix seconds.
    pub last_seen_unix: u64,
}

/// What is known of all nodes, by the base64 of their keys.
pub type LanModel = Map<Seq<char>, LanEntry>;

impl View for Entry {
    type V = LanEntry;

    closed spec fn view(&self) -> LanEntry {
        LanEntry {
            endpoints: self.endpoints@,
            seq: self.seq,
            last_seen_unix: self.last_seen_unix,
        }
    }
}

/// Who is on the local network, and where.
#[derive(Debug)]
pub struct LanTable {
    entries: Table<String, Entry>,
}

impl View for LanTable {
    type V = LanModel;

    closed spec fn view(&self) -> LanModel {
        self.entries@
    }
}

/// Whether an entry was refreshed recently enough.
pub open spec fn current(e: LanEntry, now_unix: u64) -> bool {
    now_unix - e.last_seen_unix <= ENTRY_TTL
}

/// The entries that were refreshed recently enough.
pub open spec fn unexpired(m: LanModel, now_unix: u64) -> LanModel {
    m.restrict(Set::new(|k: Seq<char>| m.dom().contains(k) && current(m[k], now_unix)))
}

/// The table after an announcement, and whether it brought something new.
///
/// An announcement older than the one known changes nothing. A known node is
/// always updated; an unknown one finds no place in a table that is full even
/// after what expired was dropped.
pub open spec fn recorded(
    m: LanModel,
    key: Seq<char>,
    endpoints: Seq<SocketAddrV6>,
    seq: u64,
    now_unix: u64,
) -> (LanModel, bool) {
    let e = LanEntry { endpoints, seq, last_seen_unix: now_unix };
    if m.dom().contains(key) {
        if seq < m[key].seq {
            (m, false)
        } else {
            (m.insert(key, e), endpoints != m[key].endpoints)
        }
    } else {
        let room = if m.dom().len() >= MAX_TRACKED {
            unexpired(m, now_unix)
        } else {
            m
        };
        if room.dom().len() >= MAX_TRACKED {
            (room, false)
        } else {
            (room.insert(key, e), true)
        }
    }
}

/// The endpoints of a node, none when it is unknown.
pub open spec fn known_endpoints(m: LanModel, key: Seq<char>) -> Seq<SocketAddrV6> {
    if m.dom().contains(key) {
        m[key].endpoints
    } else {
        seq![]
    }
}

/// The endpoints that an announcement offers: its usable addresses, with its
/// port.
pub open spec fn offered(b: Beacon) -> Seq<SocketAddrV6> {
    endpoints_at(b.addresses@, b.listen_port)
}

/// The usable addresses of `s`, each with this port.
pub open spec fn endpoints_at(s: Seq<Ipv6Addr>, port: u16) -> Seq<SocketAddrV6> {
    s.filter(|a: Ipv6Addr| addr::usable_endpoint_addr(a)).map_values(
        |a: Ipv6Addr| SocketAddrV6 { ip: a, port, flowinfo: 0, scope_id: 0 },
    )
}

/// Whether an announcement is worth recording: it is another node's, its time
/// is about right, and it offers an endpoint.
pub open spec fn believable(b: Beacon, own_key: Seq<char>, now_unix: u64) -> bool {
    &&& b.node_public_key@ != own_key
    &&& relay_server::apart(b.seq, now_unix) <= SEQ_SKEW_TOLERANCE_SECS
    &&& offered(b).len() > 0
}

impl Entry {
    fn is_current(&self, now_unix: u64) -> (yes: bool)
        ensures
            yes == current(self@, now_unix),
    {
        now_unix <= self.last_seen_unix || now_unix - self.last_seen_unix <= ENTRY_TTL
    }
}

/// The usable ones of some addresses, each with this port.
pub fn usable_endpoints(addrs: &[Ipv6Addr], port: u16) -> (out: Vec<SocketAddrV6>)
    ensures
        out@ == endpoints_at(addrs@, port),
{
    let ghost usable = |a: Ipv6Addr| addr::usable_endpoint_addr(a);
    let mut out: Vec<SocketAddrV6> = Vec::new();
    let mut i: usize = 0;
    proof {
        reveal(Seq::filter);
        assert(addrs@.take(0).filter(usable) =~= seq![]);
        assert(out@ =~= endpoints_at(addrs@.take(0), port));
    }
    while i < addrs.len()
        invariant
            i <= addrs.len(),
            usable == (|a: Ipv6Addr| addr::usable_endpoint_addr(a)),
            out@ == endpoints_at(addrs@.take(i as int), port),
        decreases addrs.len() - i,
    {
        let a = addrs[i];
        let ghost before = addrs@.take(i as int);
        proof {
            assert(addrs@.take(i + 1) =~= before.push(a));
            seqs::lemma_filter_push(before, a, usable);
        }
        if is_usable_endpoint_addr(a) {
            out.push(SocketAddrV6::new(a, port, 0, 0));
        }
        assert(out@ =~= endpoints_at(before.push(a), port));
        i = i + 1;
    }
    assert(addrs@.take(i as int) =~= addrs@);
    out
}

impl Beacon {
    /// The endpoints that the announcement offers.
    pub fn endpoints(&self) -> (out: Vec<SocketAddrV6>)
        ensures
            out@ == offered(*self),
    {
        usable_endpoints(self.addresses.as_slice(), self.listen_port)
    }
}

impl LanTable {
    /// Whether no node has two entries and there are no more than allowed.
    pub closed spec fn wf(&self) -> bool {
        &&& self.entries.wf()
        &&& self@.dom().finite()
        &&& self@.dom().len() <= MAX_TRACKED
    }

    /// A table that knows nobody.
    pub fn new() -> (t: Self)
        ensures
            t.wf(),
            t@ == LanModel::empty(),
    {
        LanTable { entries: Table::new() }
    }

    /// How many nodes are known.
    pub fn tracked_count(&self) -> (n: usize)
        requires
            self.wf(),
        ensures
            n == self@.dom().len(),
            n <= MAX_TRACKED,
    {
        self.entries.len()
    }

    /// Records an announcement; tells whether the node's endpoints changed.
    pub fn record(
        &mut self,
        peer_key: String,
        endpoints: Vec<SocketAddrV6>,
        seq: u64,
        now_unix: u64,
    ) -> (changed: bool)
        requires
            old(self).wf(),
        ensures
            final(self).wf(),
            (final(self)@, changed) == recorded(
                old(self)@,
                peer_key@,
                endpoints@,
                seq,
                now_unix,
            ),
    {
        match self.entries.position(&peer_key) {
            Some(i) => {
                proof {
                    table::lemma_as_map_entry(self.entries.listed(), i as int);
                }
                let known = self.entries.value_at(i);
                if seq < known.seq {
                    return false;
                }
                let changed = !same_list(known.endpoints.as_slice(), endpoints.as_slice());
                self.entries.set_at(i, Entry { endpoints, seq, last_seen_unix: now_unix });
                assert(self@.dom() =~= old(self)@.dom());
                changed
            },
            None => {
                if self.entries.len() >= MAX_TRACKED {
                    self.prune(now_unix);
                    if self.entries.len() >= MAX_TRACKED {
                        return false;
                    }
                }
                self.entries.insert(peer_key, Entry { endpoints, seq, last_seen_unix: now_unix });
                true
            },
        }
    }

    /// The endpoints of a node; none when it is unknown.
    pub fn endpoints_for(&self, peer_key: &str) -> (list: &[SocketAddrV6])
        requires
            self.wf(),
        ensures
            list@ == known_endpoints(self@, peer_key@),
    {
        match self.entries.get(&peer_key.to_owned()) {
            Some(e) => e.endpoints.as_slice(),
            None => &[],
        }
    }

    /// Forgets the nodes that have not been heard for too long.
    pub fn prune(&mut self, now_unix: u64)
        requires
            old(self).wf(),
        ensures
            final(self).wf(),
            final(self)@ == unexpired(old(self)@, now_unix),
    {
        let ghost m = self@;
        let ghost all = self.entries.listed();
        let ghost kept = |e: (Seq<char>, LanEntry)| current(e.1, now_unix);
        let keep = |_k: &String, e: &Entry| -> (b: bool)
            ensures
                b == current(e@, now_unix),
        {
            e.is_current(now_unix)
        };
        self.entries.retain(keep, Ghost(kept));
        proof {
            table::lemma_as_map_filter(all, kept);
            assert(self@ =~= unexpired(m, now_unix));
            vstd::set_lib::lemma_len_subset(self@.dom(), m.dom());
        }
    }
}

/// Handles a datagram: `beacon` is the announcement, or `None` when the
/// datagram is no authentic one.
///
/// What is not believable is dropped without a trace, and so is a replay of an
/// older announcement. What brings nothing new refreshes the entry silently.
pub fn handle_datagram(
    beacon: Option<Beacon>,
    own_key_b64: &str,
    table: &mut LanTable,
    now_unix: u64,
) -> (update: Option<LanUpdate>)
    requires
        old(table).wf(),
    ensures
        final(table).wf(),
        match beacon {
            Some(b) if believable(b, own_key_b64@, now_unix) => {
                let (m, changed) = recorded(
                    old(table)@,
                    b.node_public_key@,
                    offered(b),
                    b.seq,
                    now_unix,
                );
                &&& final(table)@ == m
                &&& update is Some <==> changed
                &&& update matches Some(u) ==> u.source == Source::Lan && u.peer_key@
                    == b.node_public_key@ && u.endpoints@ == offered(b)
            },
            _ => final(table)@ == old(table)@ && update is None,
        },
{
    let b = match beacon {
        Some(b) => b,
        None => {
            return None;
        },
    };
    if b.node_public_key == own_key_b64.to_owned() {
        return None;
    }
    if !within_skew(b.seq, now_unix, SEQ_SKEW_TOLERANCE_SECS) {
        return None;
    }
    let endpoints = b.endpoints();
    if endpoints.is_empty() {
        return None;
    }
    let copy = vstd::slice::slice_to_vec(endpoints.as_slice());
    let key = b.node_public_key.clone();
    if !table.record(b.node_public_key, endpoints, b.seq, now_unix) {
        return None;
    }
    Some(DiscoveredEndpoints { source: Source::Lan, peer_key: key, endpoints: copy })
}

/// Prepares an announcement of this node, which has the given addresses
/// (`None` when they could not be listed). There is none to make without an
/// address. Nodes not heard for too long are forgotten on the way.
pub fn announcement(
    table: &mut LanTable,
    own_key_b64: &str,
    listen_port: u16,
    addrs: Option<Vec<Ipv6Addr>>,
    now_unix: u64,
) -> (beacon: Option<Beacon>)
    requires
        old(table).wf(),
    ensures
        final(table).wf(),
        final(table)@ == unexpired(old(table)@, now_unix),
        beacon is Some <==> addrs is Some && addrs->Some_0@.len() > 0,
        beacon matches Some(b) ==> {
            &&& b.node_public_key@ == own_key_b64@
            &&& b.listen_port == listen_port
            &&& b.seq == now_unix
            &&& b.addresses@ == seqs::at_most(addrs->Some_0@, BEACON_MAX_ADDRS as int)
        },
{
    table.prune(now_unix);
    match addrs {
        None => None,
        Some(list) => {
            if list.is_empty() {
                return None;
            }
            let mut addresses = list;
            addresses.truncate(BEACON_MAX_ADDRS);
            assert(addresses@ =~= seqs::at_most(list@, BEACON_MAX_ADDRS as int));
            Some(
                Beacon {
                    node_public_key: own_key_b64.to_owned(),
                    listen_port,
                    seq: now_unix,
                    addresses,
                },
            )
        },
    }
}

/// A sound table knows no more nodes than allowed.
pub proof fn law_lan_table_bounded(t: &LanTable)
    requires
        t.wf(),
    ensures
        t@.dom().finite(),
        t@.dom().len() <= MAX_TRACKED,
{
}

/// Replaying an older announcement changes nothing at all.
pub proof fn law_replay_changes_nothing(
    m: LanModel,
    key: Seq<char>,
    endpoints: Seq<SocketAddrV6>,
    seq: u64,
    now_unix: u64,
)
    requires
        m.dom().contains(key),
        seq < m[key].seq,
    ensures
        recorded(m, key, endpoints, seq, now_unix) == (m, false),
{
}

/// Once a table knows a node, the announcement it has just seen brings nothing
/// new when it comes again, and leaves the node where it was.
pub proof fn law_same_announcement_again(
    m: LanModel,
    key: Seq<char>,
    endpoints: Seq<SocketAddrV6>,
    seq: u64,
    now_unix: u64,
    later: u64,
)
    requires
        recorded(m, key, endpoints, seq, now_unix).0.dom().contains(key),
    ensures
        !recorded(
            recorded(m, key, endpoints, seq, now_unix).0,
            key,
            endpoints,
            seq,
            later,
        ).1,
        known_endpoints(
            recorded(
                recorded(m, key, endpoints, seq, now_unix).0,
                key,
                endpoints,
                seq,
                later,
            ).0,
            key,
        ) == known_endpoints(recorded(m, key, endpoints, seq, now_unix).0, key),
        recorded(m, key, endpoints, seq, now_unix).1 ==> known_endpoints(
            recorded(m, key, endpoints, seq, now_unix).0,
            key,
        ) == endpoints,
{
}

/// A known node that is still current is never dropped for another, however
/// full the table is.
pub proof fn law_known_nodes_kept(
    m: LanModel,
    known: Seq<char>,
    key: Seq<char>,
    endpoints: Seq<SocketAddrV6>,
    seq: u64,
    now_unix: u64,
)
    requires
        m.dom().contains(known),
        current(m[known], now_unix),
        known != key,
    ensures
        recorded(m, key, endpoints, seq, now_unix).0.dom().contains(known),
        recorded(m, key, endpoints, seq, now_unix).0[known] == m[known],
{
}

/// A full table still follows the nodes that it knows.
pub proof fn law_known_nodes_followed(
    m: LanModel,
    key: Seq<char>,
    endpoints: Seq<SocketAddrV6>,
    seq: u64,
    now_unix: u64,
)
    requires
        m.dom().contains(key),
        seq >= m[key].seq,
    ensures
        known_endpoints(recorded(m, key, endpoints, seq, now_unix).0, key) == endpoints,
{
}

/// A node's own announcement, looped back, is never believed.
pub proof fn law_own_announcement_ignored(b: Beacon, now_unix: u64)
    ensures
        !believable(b, b.node_public_key@, now_unix),
{
}

/// An entry lasts for 60 seconds after it was heard, and what is forgotten is
/// exactly what lasted longer.
pub proof fn law_entries_expire(m: LanModel, key: Seq<char>, now_unix: u64)
    ensures
        unexpired(m, now_unix).dom().contains(key) <==> m.dom().contains(key) && now_unix
            - m[key].last_seen_unix <= 60,
        unexpired(m, now_unix).dom().contains(key) ==> unexpired(m, now_unix)[key] == m[key],
{
}

/// An announcement that is recorded is known afterwards with its endpoints and
/// its time, and counts as news exactly when the node was unknown or its
/// endpoints differ. An unknown node is recorded whenever fewer than 64 are
/// known, or fewer than 64 are once the expired ones are forgotten.
pub proof fn law_announcement_is_recorded(
    m: LanModel,
    key: Seq<char>,
    endpoints: Seq<SocketAddrV6>,
    seq: u64,
    now_unix: u64,
)
    requires
        if m.dom().contains(key) {
            seq >= m[key].seq
        } else {
            m.dom().len() < 64 || unexpired(m, now_unix).dom().len() < 64
        },
    ensures
        ({
            let (m1, changed) = recorded(m, key, endpoints, seq, now_unix);
            &&& m1.dom().contains(key)
            &&& m1[key].endpoints == endpoints
            &&& m1[key].seq == seq
            &&& m1[key].last_seen_unix == now_unix
            &&& changed <==> !m.dom().contains(key) || m[key].endpoints != endpoints
        }),
{
}

/// An unknown node finds no place in a table that is full of nodes heard of
/// lately, and is no news then.
pub proof fn law_full_table_takes_nobody(
    m: LanModel,
    key: Seq<char>,
    endpoints: Seq<SocketAddrV6>,
    seq: u64,
    now_unix: u64,
)
    requires
        !m.dom().contains(key),
        m.dom().len() >= 64,
        unexpired(m, now_unix).dom().len() >= 64,
    ensures
        !recorded(m, key, endpoints, seq, now_unix).1,
        !recorded(m, key, endpoints, seq, now_unix).0.dom().contains(key),
{
}

/// What is known of a node is what was recorded of it, and nothing of an unknown
/// one.
pub proof fn law_known_endpoints(m: LanModel, key: Seq<char>)
    ensures
        m.dom().contains(key) ==> known_endpoints(m, key) == m[key].endpoints,
        !m.dom().contains(key) ==> known_endpoints(m, key).len() == 0,
{
}

/// An announcement offers exactly its usable addresses, each at its port.
pub proof fn law_usable_addresses_are_offered(
    addrs: Seq<Ipv6Addr>,
    port: u16,
    ep: SocketAddrV6,
)
    ensures
        endpoints_at(addrs, port).contains(ep) <==> {
            &&& addrs.contains(ep.ip)
            &&& addr::usable_endpoint_addr(ep.ip)
            &&& ep.port == port
            &&& ep.flowinfo == 0
            &&& ep.scope_id == 0
        },
{
    let usable = |a: Ipv6Addr| addr::usable_endpoint_addr(a);
    let kept = addrs.filter(usable);
    let out = endpoints_at(addrs, port);
    seqs::lemma_filter_members(addrs, usable);
    assert(kept.contains(ep.ip) <==> addrs.contains(ep.ip) && usable(ep.ip));
    if out.contains(ep) {
        let k = choose|k: int| 0 <= k < out.len() && out[k] == ep;
        assert(kept[k] == ep.ip);
        assert(kept.contains(ep.ip));
    }
    if kept.contains(ep.ip) && ep.port == port && ep.flowinfo == 0 && ep.scope_id == 0 {
        let k = choose|k: int| 0 <= k < kept.len() && kept[k] == ep.ip;
        assert(out[k] == ep);
    }
}

/// An announcement is believed exactly when another node made it, within 300
/// seconds of now, with a usable address.
pub proof fn law_believable_announcements(b: Beacon, own_key: Seq<char>, now_unix: u64)
    ensures
        believable(b, own_key, now_unix) <==> {
            &&& b.node_public_key@ != own_key
            &&& -300 <= b.seq - now_unix <= 300
            &&& exists|i: int|
                0 <= i < b.addresses@.len() && addr::usable_endpoint_addr(
                    #[trigger] b.addresses@[i],
                )
        },
{
    let out = offered(b);
    let some = exists|i: int|
        0 <= i < b.addresses@.len() && addr::usable_endpoint_addr(#[trigger] b.addresses@[i]);
    if some {
        let i = choose|i: int|
            0 <= i < b.addresses@.len() && addr::usable_endpoint_addr(#[trigger] b.addresses@[i]);
        let ep = SocketAddrV6 {
            ip: b.addresses@[i],
            port: b.listen_port,
            flowinfo: 0,
            scope_id: 0,
        };
        law_usable_addresses_are_offered(b.addresses@, b.listen_port, ep);
        assert(b.addresses@.contains(ep.ip));
        assert(out.contains(ep));
    }
    if out.len() > 0 {
        law_usable_addresses_are_offered(b.addresses@, b.listen_port, out[0]);
        assert(out.contains(out[0]));
        let i = choose|i: int| 0 <= i < b.addresses@.len() && b.addresses@[i] == out[0].ip;
        assert(addr::usable_endpoint_addr(b.addresses@[i]));
    }
}

} // verus!
