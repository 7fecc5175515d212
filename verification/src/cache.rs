//! Endpoints at which a peer was reached before.
//!
//! The cache is soft state: losing it makes the next connection slower and
//! nothing worse, so what cannot be read counts as an empty cache.

use crate::addr::SocketAddrV6;
use crate::candidates::{self, normalize};
use crate::seqs;
use crate::table::Table;
use vstd::prelude::*;

verus! {

/// The version of the cache file.
pub const CACHE_VERSION: u32 = 1;

/// How many endpoints are remembered of a peer.
pub const CACHE_SEEN_MAX: usize = 8;

/// An endpoint and when it was last proved to work.
#[derive(Clone, Copy, PartialEq, Eq, Debug, Structural)]
pub struct CachedEndpoint {
    /// The endpoint.
    pub endpoint: SocketAddrV6,
    /// When it last worked, in Unix seconds.
    pub last_seen_unix: u64,
}

/// `s` with `c` put behind the last entry that is at least as recent.
pub open spec fn insert_newest(s: Seq<CachedEndpoint>, c: CachedEndpoint) -> Seq<CachedEndpoint>
    decreases s.len(),
{
    if s.len() == 0 || s.last().last_seen_unix >= c.last_seen_unix {
        s.push(c)
    } else {
        insert_newest(s.drop_last(), c).push(s.last())
    }
}

/// The entries of `s` with the most recent first; equally recent ones keep
/// their order.
pub open spec fn newest_first(s: Seq<CachedEndpoint>) -> Seq<CachedEndpoint>
    decreases s.len(),
{
    if s.len() == 0 {
        s
    } else {
        insert_newest(newest_first(s.drop_last()), s.last())
    }
}

/// Whether no entry is older than one behind it.
pub open spec fn is_newest_first(s: Seq<CachedEndpoint>) -> bool {
    forall|i: int, j: int|
        0 <= i <= j < s.len() ==> s[i].last_seen_unix >= s[j].last_seen_unix
}

/// The entries of `s` last seen at `at`.
pub open spec fn seen_at(s: Seq<CachedEndpoint>, at: u64) -> Seq<CachedEndpoint> {
    s.filter(|c: CachedEndpoint| c.last_seen_unix == at)
}

proof fn lemma_insert_newest_position(s: Seq<CachedEndpoint>, c: CachedEndpoint, p: int)
    requires
        0 <= p <= s.len(),
        forall|j: int| p <= j < s.len() ==> s[j].last_seen_unix < c.last_seen_unix,
        p > 0 ==> s[p - 1].last_seen_unix >= c.last_seen_unix,
    ensures
        insert_newest(s, c) == s.insert(p, c),
    decreases s.len(),
{
    if s.len() == 0 || s.last().last_seen_unix >= c.last_seen_unix {
        assert(p == s.len());
        assert(s.push(c) =~= s.insert(p, c));
    } else {
        lemma_insert_newest_position(s.drop_last(), c, p);
        assert(s.drop_last().insert(p, c).push(s.last()) =~= s.insert(p, c));
    }
}

proof fn lemma_insert_newest(s: Seq<CachedEndpoint>, c: CachedEndpoint)
    ensures
        insert_newest(s, c).to_multiset() == s.to_multiset().insert(c),
        insert_newest(s, c).len() == s.len() + 1,
        is_newest_first(s) ==> is_newest_first(insert_newest(s, c)),
        insert_newest(s, c).last() == c || (s.len() > 0 && insert_newest(s, c).last() == s.last()
            && s.last().last_seen_unix < c.last_seen_unix),
    decreases s.len(),
{
    broadcast use vstd::seq_lib::group_to_multiset_ensures;

    if s.len() == 0 || s.last().last_seen_unix >= c.last_seen_unix {
    } else {
        let rest = s.drop_last();
        lemma_insert_newest(rest, c);
        let r = insert_newest(rest, c);
        assert(s =~= rest.push(s.last()));
        assert(r.push(s.last()).to_multiset() =~= s.to_multiset().insert(c));
        if is_newest_first(s) {
            assert(is_newest_first(rest));
            assert forall|i: int| 0 <= i < r.len() implies r[i].last_seen_unix
                >= s.last().last_seen_unix by {
                assert(r[i].last_seen_unix >= r[r.len() - 1].last_seen_unix);
            }
        }
    }
}

proof fn lemma_insert_newest_keeps_order(s: Seq<CachedEndpoint>, c: CachedEndpoint, at: u64)
    requires
        is_newest_first(s),
    ensures
        seen_at(insert_newest(s, c), at) == seen_at(s.push(c), at),
    decreases s.len(),
{
    let f = |e: CachedEndpoint| e.last_seen_unix == at;
    if s.len() == 0 || s.last().last_seen_unix >= c.last_seen_unix {
    } else {
        let rest = s.drop_last();
        let x = s.last();
        assert(is_newest_first(rest));
        lemma_insert_newest_keeps_order(rest, c, at);
        let r = insert_newest(rest, c);
        assert(s =~= rest.push(x));
        seqs::lemma_filter_push(r, x, f);
        seqs::lemma_filter_push(rest, c, f);
        seqs::lemma_filter_push(rest, x, f);
        seqs::lemma_filter_push(s, c, f);
    }
}

/// Ordering by recency keeps exactly the entries it was given, puts no older
/// one before a newer one, and leaves equally recent ones in their order.
pub proof fn law_newest_first(s: Seq<CachedEndpoint>)
    ensures
        newest_first(s).to_multiset() == s.to_multiset(),
        newest_first(s).len() == s.len(),
        is_newest_first(newest_first(s)),
        forall|at: u64| #[trigger] seen_at(newest_first(s), at) == seen_at(s, at),
    decreases s.len(),
{
    broadcast use vstd::seq_lib::group_to_multiset_ensures;

    if s.len() > 0 {
        let rest = s.drop_last();
        law_newest_first(rest);
        lemma_insert_newest(newest_first(rest), s.last());
        assert(s =~= rest.push(s.last()));
        assert forall|at: u64| #[trigger] seen_at(newest_first(s), at) == seen_at(s, at) by {
            lemma_insert_newest_keeps_order(newest_first(rest), s.last(), at);
            let f = |e: CachedEndpoint| e.last_seen_unix == at;
            assert(seen_at(newest_first(rest), at) == seen_at(rest, at));
            seqs::lemma_filter_push(newest_first(rest), s.last(), f);
            seqs::lemma_filter_push(rest, s.last(), f);
        }
    }
}

/// The entries with the most recent first; equally recent ones keep their
/// order.
pub fn sort_newest_first(entries: &[CachedEndpoint]) -> (sorted: Vec<CachedEndpoint>)
    ensures
        sorted@ == newest_first(entries@),
{
    let mut sorted: Vec<CachedEndpoint> = Vec::new();
    let mut i: usize = 0;
    assert(entries@.take(0) =~= Seq::<CachedEndpoint>::empty());
    while i < entries.len()
        invariant
            i <= entries.len(),
            sorted@ == newest_first(entries@.take(i as int)),
        decreases entries.len() - i,
    {
        let c = entries[i];
        let mut p: usize = sorted.len();
        while p > 0 && sorted[p - 1].last_seen_unix < c.last_seen_unix
            invariant
                p <= sorted.len(),
                forall|j: int|
                    p <= j < sorted.len() ==> sorted@[j].last_seen_unix < c.last_seen_unix,
            decreases p,
        {
            p = p - 1;
        }
        proof {
            lemma_insert_newest_position(sorted@, c, p as int);
            assert(entries@.take(i + 1).drop_last() =~= entries@.take(i as int));
        }
        sorted.insert(p, c);
        i = i + 1;
    }
    assert(entries@.take(i as int) =~= entries@);
    sorted
}

/// What is remembered of one peer.
#[derive(Debug)]
pub struct PeerCacheEntry {
    /// The endpoint that worked last.
    pub last_good: Option<SocketAddrV6>,
    /// Endpoints that worked, the most recent first.
    pub seen: Vec<CachedEndpoint>,
}

/// What a [`PeerCacheEntry`] holds.
pub struct EntryModel {
    /// The endpoint that worked last.
    pub last_good: Option<SocketAddrV6>,
    /// Endpoints that worked, the most recent first.
    pub seen: Seq<CachedEndpoint>,
}

/// What is remembered of all peers, by the base64 of their public keys.
#[derive(Debug)]
pub struct EndpointCache {
    /// The version of the file.
    pub version: u32,
    /// What is remembered of each peer.
    pub peers: Table<String, PeerCacheEntry>,
}

impl View for PeerCacheEntry {
    type V = EntryModel;

    open spec fn view(&self) -> EntryModel {
        EntryModel { last_good: self.last_good, seen: self.seen@ }
    }
}

impl View for EndpointCache {
    type V = Map<Seq<char>, EntryModel>;

    open spec fn view(&self) -> Map<Seq<char>, EntryModel> {
        self.peers@
    }
}

/// `s` with the first entry for `ep` stamped `now`, or with such an entry
/// added at the end.
pub open spec fn touched(s: Seq<CachedEndpoint>, ep: SocketAddrV6, now: u64) -> Seq<
    CachedEndpoint,
>
    decreases s.len(),
{
    let stamped = CachedEndpoint { endpoint: ep, last_seen_unix: now };
    if s.len() == 0 {
        seq![stamped]
    } else if s[0].endpoint == ep {
        s.update(0, stamped)
    } else {
        seq![s[0]] + touched(s.skip(1), ep, now)
    }
}

proof fn lemma_touched(s: Seq<CachedEndpoint>, ep: SocketAddrV6, now: u64, k: int)
    requires
        0 <= k <= s.len(),
        forall|j: int| 0 <= j < k ==> (#[trigger] s[j]).endpoint != ep,
        k < s.len() ==> s[k].endpoint == ep,
    ensures
        k < s.len() ==> touched(s, ep, now) == s.update(
            k,
            CachedEndpoint { endpoint: ep, last_seen_unix: now },
        ),
        k == s.len() ==> touched(s, ep, now) == s.push(
            CachedEndpoint { endpoint: ep, last_seen_unix: now },
        ),
    decreases s.len(),
{
    let stamped = CachedEndpoint { endpoint: ep, last_seen_unix: now };
    if s.len() == 0 {
        assert(seq![stamped] =~= s.push(stamped));
    } else if s[0].endpoint != ep {
        let rest = s.skip(1);
        assert forall|j: int| 0 <= j < k - 1 implies (#[trigger] rest[j]).endpoint != ep by {
            assert(s[j + 1].endpoint != ep);
        }
        lemma_touched(rest, ep, now, k - 1);
        if k < s.len() {
            assert(seq![s[0]] + rest.update(k - 1, stamped) =~= s.update(k, stamped));
        } else {
            assert(seq![s[0]] + rest.push(stamped) =~= s.push(stamped));
        }
    }
}

impl EntryModel {
    /// Nothing remembered.
    pub open spec fn blank() -> EntryModel {
        EntryModel { last_good: None, seen: seq![] }
    }

    /// After `ep` worked at `now`.
    pub open spec fn after_good(self, ep: SocketAddrV6, now: u64) -> EntryModel {
        EntryModel {
            last_good: Some(candidates::normal(ep)),
            seen: seqs::at_most(
                newest_first(touched(self.seen, candidates::normal(ep), now)),
                CACHE_SEEN_MAX as int,
            ),
        }
    }

    /// After `ep` was found dead.
    pub open spec fn without(self, ep: SocketAddrV6) -> EntryModel {
        let dead = candidates::normal(ep);
        EntryModel {
            last_good: if self.last_good == Some(dead) {
                None
            } else {
                self.last_good
            },
            seen: self.seen.filter(|c: CachedEndpoint| c.endpoint != dead),
        }
    }

    /// Whether the remembered endpoints are in order: the most recent first,
    /// no more than allowed, none twice, all normalized.
    pub open spec fn tidy(self) -> bool {
        &&& is_newest_first(self.seen)
        &&& self.seen.len() <= CACHE_SEEN_MAX
        &&& forall|i: int, j: int|
            0 <= i < j < self.seen.len() ==> (#[trigger] self.seen[i]).endpoint != (
            #[trigger] self.seen[j]).endpoint
        &&& forall|i: int|
            0 <= i < self.seen.len() ==> (#[trigger] self.seen[i]).endpoint == candidates::normal(
                self.seen[i].endpoint,
            )
    }
}

/// What a cache remembers of the peer `key`.
pub open spec fn remembered(cache: Map<Seq<char>, EntryModel>, key: Seq<char>) -> EntryModel {
    if cache.dom().contains(key) {
        cache[key]
    } else {
        EntryModel::blank()
    }
}

impl Default for EndpointCache {
    fn default() -> (c: Self)
        ensures
            c.wf(),
            c.version == CACHE_VERSION,
            c@ == Map::<Seq<char>, EntryModel>::empty(),
    {
        EndpointCache::new()
    }
}

impl EndpointCache {
    /// Whether no peer has two entries.
    pub open spec fn wf(&self) -> bool {
        self.peers.wf()
    }

    /// A cache that remembers nothing.
    pub fn new() -> (c: Self)
        ensures
            c.wf(),
            c.version == CACHE_VERSION,
            c@ == Map::<Seq<char>, EntryModel>::empty(),
    {
        EndpointCache { version: CACHE_VERSION, peers: Table::new() }
    }

    /// What counts of a file that held this: nothing of another version.
    pub open spec fn counted(version: u32, content: Map<Seq<char>, EntryModel>) -> Map<
        Seq<char>,
        EntryModel,
    > {
        if version == CACHE_VERSION {
            content
        } else {
            Map::empty()
        }
    }

    /// The cache to start with: the one that the file held, or an empty one
    /// when the file could not be read or has another version.
    pub fn load(file: Option<EndpointCache>) -> (c: Self)
        requires
            file matches Some(f) ==> f.wf(),
        ensures
            c.wf(),
            c.version == CACHE_VERSION,
            c@ == match file {
                Some(f) if f.version == CACHE_VERSION => f@,
                _ => Map::<Seq<char>, EntryModel>::empty(),
            },
            c@ == match file {
                Some(f) => EndpointCache::counted(f.version, f@),
                None => Map::<Seq<char>, EntryModel>::empty(),
            },
    {
        match file {
            Some(f) => if f.version == CACHE_VERSION {
                f
            } else {
                EndpointCache::new()
            },
            None => EndpointCache::new(),
        }
    }

    /// What is remembered of a peer.
    pub fn entry(&self, peer_key: &str) -> (e: Option<&PeerCacheEntry>)
        requires
            self.wf(),
        ensures
            e is Some <==> self@.dom().contains(peer_key@),
            e matches Some(x) ==> x@ == self@[peer_key@],
    {
        self.peers.get(&peer_key.to_owned())
    }

    /// Remembers that an endpoint worked.
    ///
    /// The endpoint becomes the last good one. Recording it again only moves
    /// its time; what is remembered stays sorted by recency and bounded.
    pub fn record_good(&mut self, peer_key: &str, endpoint: SocketAddrV6, now_unix: u64)
        requires
            old(self).wf(),
        ensures
            final(self).wf(),
            final(self).version == old(self).version,
            final(self)@ == old(self)@.insert(
                peer_key@,
                remembered(old(self)@, peer_key@).after_good(endpoint, now_unix),
            ),
    {
        let endpoint = normalize(endpoint);
        let key = peer_key.to_owned();
        let mut seen: Vec<CachedEndpoint> = Vec::new();
        if let Some(e) = self.peers.get(&key) {
            let mut i: usize = 0;
            while i < e.seen.len()
                invariant
                    i <= e.seen.len(),
                    seen@ == e.seen@.take(i as int),
                decreases e.seen.len() - i,
            {
                seen.push(e.seen[i]);
                i = i + 1;
                assert(seen@ =~= e.seen@.take(i as int));
            }
            assert(e.seen@.take(i as int) =~= e.seen@);
        }
        assert(seen@ =~= remembered(self@, peer_key@).seen);
        let mut k: usize = 0;
        while k < seen.len() && seen[k].endpoint != endpoint
            invariant
                k <= seen.len(),
                forall|j: int| 0 <= j < k ==> (#[trigger] seen@[j]).endpoint != endpoint,
            decreases seen.len() - k,
        {
            k = k + 1;
        }
        proof {
            lemma_touched(seen@, endpoint, now_unix, k as int);
        }
        let stamped = CachedEndpoint { endpoint, last_seen_unix: now_unix };
        if k < seen.len() {
            seen.set(k, stamped);
        } else {
            seen.push(stamped);
        }
        let mut sorted = sort_newest_first(seen.as_slice());
        let ghost whole = sorted@;
        sorted.truncate(CACHE_SEEN_MAX);
        assert(sorted@ =~= seqs::at_most(whole, CACHE_SEEN_MAX as int));
        self.peers.insert(key, PeerCacheEntry { last_good: Some(endpoint), seen: sorted });
    }

    /// Forgets an endpoint that no longer works, so that it cannot come back
    /// as a candidate.
    pub fn evict(&mut self, peer_key: &str, endpoint: SocketAddrV6)
        requires
            old(self).wf(),
        ensures
            final(self).wf(),
            final(self).version == old(self).version,
            final(self)@ == if old(self)@.dom().contains(peer_key@) {
                old(self)@.insert(peer_key@, old(self)@[peer_key@].without(endpoint))
            } else {
                old(self)@
            },
    {
        let endpoint = normalize(endpoint);
        let key = peer_key.to_owned();
        let mut kept: Vec<CachedEndpoint> = Vec::new();
        let mut last_good: Option<SocketAddrV6> = None;
        match self.peers.get(&key) {
            None => {
                return ;
            },
            Some(e) => {
                if e.last_good != Some(endpoint) {
                    last_good = e.last_good;
                }
                let ghost alive = |c: CachedEndpoint| c.endpoint != endpoint;
                let mut i: usize = 0;
                proof {
                    reveal(Seq::filter);
                    assert(e.seen@.take(0).filter(alive) =~= seq![]);
                }
                while i < e.seen.len()
                    invariant
                        i <= e.seen.len(),
                        alive == (|c: CachedEndpoint| c.endpoint != endpoint),
                        kept@ == e.seen@.take(i as int).filter(alive),
                    decreases e.seen.len() - i,
                {
                    let c = e.seen[i];
                    proof {
                        assert(e.seen@.take(i + 1) =~= e.seen@.take(i as int).push(c));
                        seqs::lemma_filter_push(e.seen@.take(i as int), c, alive);
                    }
                    if c.endpoint != endpoint {
                        kept.push(c);
                    }
                    i = i + 1;
                }
                assert(e.seen@.take(i as int) =~= e.seen@);
            },
        }
        self.peers.insert(key, PeerCacheEntry { last_good, seen: kept });
    }
}

/// Ordering by recency keeps exactly what was there.
pub proof fn lemma_newest_first_members(s: Seq<CachedEndpoint>)
    ensures
        forall|c: CachedEndpoint| newest_first(s).contains(c) <==> s.contains(c),
        s.no_duplicates() ==> newest_first(s).no_duplicates(),
{
    law_newest_first(s);
    broadcast use vstd::seq_lib::group_to_multiset_ensures;

    let t = newest_first(s);
    assert forall|c: CachedEndpoint| t.contains(c) <==> s.contains(c) by {
        assert(t.contains(c) <==> t.to_multiset().count(c) > 0);
        assert(s.contains(c) <==> s.to_multiset().count(c) > 0);
    }
    if s.no_duplicates() {
        s.lemma_multiset_has_no_duplicates();
        t.lemma_multiset_has_no_duplicates_conv();
    }
}

proof fn lemma_touched_distinct(s: Seq<CachedEndpoint>, ep: SocketAddrV6, now: u64)
    requires
        (EntryModel { last_good: None, seen: s }).tidy(),
        ep == candidates::normal(ep),
    ensures
        ({
            let t = touched(s, ep, now);
            &&& forall|i: int, j: int|
                0 <= i < j < t.len() ==> (#[trigger] t[i]).endpoint != (#[trigger] t[j]).endpoint
            &&& forall|i: int|
                0 <= i < t.len() ==> (#[trigger] t[i]).endpoint == candidates::normal(t[i].endpoint)
        }),
{
    let e = EntryModel { last_good: None, seen: s };
    if exists|k: int| 0 <= k < s.len() && (#[trigger] s[k]).endpoint == ep {
        let k = choose|k: int| 0 <= k < s.len() && (#[trigger] s[k]).endpoint == ep;
        assert forall|j: int| 0 <= j < k implies (#[trigger] s[j]).endpoint != ep by {
            assert(e.seen[j].endpoint != e.seen[k].endpoint);
        }
        lemma_touched(s, ep, now, k);
        let t = touched(s, ep, now);
        assert forall|i: int, j: int| 0 <= i < j < t.len() implies (#[trigger] t[i]).endpoint != (
        #[trigger] t[j]).endpoint by {
            assert(e.seen[i].endpoint != e.seen[j].endpoint);
        }
        assert forall|i: int| 0 <= i < t.len() implies (#[trigger] t[i]).endpoint
            == candidates::normal(t[i].endpoint) by {
            assert(e.seen[i].endpoint == candidates::normal(e.seen[i].endpoint));
        }
    } else {
        lemma_touched(s, ep, now, s.len() as int);
        let t = touched(s, ep, now);
        assert forall|i: int, j: int| 0 <= i < j < t.len() implies (#[trigger] t[i]).endpoint != (
        #[trigger] t[j]).endpoint by {
            if j < s.len() {
                assert(e.seen[i].endpoint != e.seen[j].endpoint);
            } else {
                assert(s[i].endpoint != ep);
            }
        }
        assert forall|i: int| 0 <= i < t.len() implies (#[trigger] t[i]).endpoint
            == candidates::normal(t[i].endpoint) by {
            if i < s.len() {
                assert(e.seen[i].endpoint == candidates::normal(e.seen[i].endpoint));
            }
        }
    }
}

/// Whatever was remembered of a peer before, once an endpoint works the most
/// recent endpoints come first, there are no more than allowed, and that
/// endpoint is the last good one.
pub proof fn law_record_good_bounded(e: EntryModel, ep: SocketAddrV6, now: u64)
    ensures
        is_newest_first(e.after_good(ep, now).seen),
        e.after_good(ep, now).seen.len() <= CACHE_SEEN_MAX,
        e.after_good(ep, now).last_good == Some(candidates::normal(ep)),
{
    law_newest_first(touched(e.seen, candidates::normal(ep), now));
}

/// What is remembered of a peer stays in order whenever an endpoint works.
pub proof fn law_record_good_tidy(e: EntryModel, ep: SocketAddrV6, now: u64)
    requires
        e.tidy(),
    ensures
        e.after_good(ep, now).tidy(),
{
    let n = candidates::normal(ep);
    let t = touched(e.seen, n, now);
    let sorted = newest_first(t);
    let out = e.after_good(ep, now).seen;
    assert(EntryModel { last_good: None, seen: e.seen }.tidy());
    lemma_touched_distinct(e.seen, n, now);
    law_newest_first(t);
    lemma_newest_first_members(t);
    assert(t.no_duplicates()) by {
        assert forall|i: int, j: int| 0 <= i < t.len() && 0 <= j < t.len() && i != j implies t[i]
            != t[j] by {
            if i < j {
                assert(t[i].endpoint != t[j].endpoint);
            } else {
                assert(t[j].endpoint != t[i].endpoint);
            }
        }
    }
    assert forall|i: int, j: int| 0 <= i < j < sorted.len() implies (
    #[trigger] sorted[i]).endpoint != (#[trigger] sorted[j]).endpoint by {
        assert(sorted.contains(sorted[i]) && sorted.contains(sorted[j]));
        assert(t.contains(sorted[i]) && t.contains(sorted[j]));
        let a = choose|a: int| 0 <= a < t.len() && t[a] == sorted[i];
        let b = choose|b: int| 0 <= b < t.len() && t[b] == sorted[j];
        assert(sorted[i] != sorted[j]);
        if a < b {
            assert(t[a].endpoint != t[b].endpoint);
        } else {
            assert(t[b].endpoint != t[a].endpoint);
        }
    }
    assert forall|i: int| 0 <= i < sorted.len() implies (#[trigger] sorted[i]).endpoint
        == candidates::normal(sorted[i].endpoint) by {
        assert(sorted.contains(sorted[i]));
        assert(t.contains(sorted[i]));
        let a = choose|a: int| 0 <= a < t.len() && t[a] == sorted[i];
        assert(t[a].endpoint == candidates::normal(t[a].endpoint));
    }
    assert forall|i: int| 0 <= i < out.len() implies #[trigger] out[i] == sorted[i] by {}
}

proof fn lemma_filter_tidy(e: EntryModel, keep: spec_fn(CachedEndpoint) -> bool)
    requires
        e.tidy(),
    ensures
        (EntryModel { last_good: e.last_good, seen: e.seen.filter(keep) }).tidy(),
        forall|c: CachedEndpoint| #[trigger]
            e.seen.filter(keep).contains(c) <==> e.seen.contains(c) && keep(c),
    decreases e.seen.len(),
{
    reveal(Seq::filter);
    if e.seen.len() > 0 {
        let rest = EntryModel { last_good: e.last_good, seen: e.seen.drop_last() };
        let x = e.seen.last();
        assert(rest.tidy()) by {
            assert forall|i: int, j: int| 0 <= i < j < rest.seen.len() implies (
            #[trigger] rest.seen[i]).endpoint != (#[trigger] rest.seen[j]).endpoint by {
                assert(e.seen[i].endpoint != e.seen[j].endpoint);
            }
            assert forall|i: int| 0 <= i < rest.seen.len() implies (
            #[trigger] rest.seen[i]).endpoint == candidates::normal(rest.seen[i].endpoint) by {
                assert(e.seen[i].endpoint == candidates::normal(e.seen[i].endpoint));
            }
        }
        lemma_filter_tidy(rest, keep);
        let u = rest.seen.filter(keep);
        let t = e.seen.filter(keep);
        e.seen.lemma_filter_len(keep);
        assert(e.seen =~= rest.seen.push(x));
        assert forall|c: CachedEndpoint| #[trigger] t.contains(c) <==> e.seen.contains(c) && keep(
            c,
        ) by {
            if t.contains(c) {
                let k = choose|k: int| 0 <= k < t.len() && t[k] == c;
                if k < u.len() {
                    assert(u[k] == c);
                    assert(u.contains(c));
                    let q = choose|q: int| 0 <= q < rest.seen.len() && rest.seen[q] == c;
                    assert(e.seen[q] == c);
                } else {
                    assert(e.seen[e.seen.len() - 1] == c);
                }
            }
            if e.seen.contains(c) && keep(c) {
                let q = choose|q: int| 0 <= q < e.seen.len() && e.seen[q] == c;
                if q < rest.seen.len() {
                    assert(rest.seen[q] == c);
                    assert(u.contains(c));
                    let k = choose|k: int| 0 <= k < u.len() && u[k] == c;
                    assert(t[k] == c);
                } else {
                    assert(t[u.len() as int] == c);
                }
            }
        }
        if keep(x) {
            assert forall|i: int| 0 <= i < u.len() implies u[i].last_seen_unix >= x.last_seen_unix
                && (#[trigger] u[i]).endpoint != x.endpoint by {
                assert(u.contains(u[i]));
                let q = choose|q: int| 0 <= q < rest.seen.len() && rest.seen[q] == u[i];
                assert(e.seen[q].endpoint != e.seen[e.seen.len() - 1].endpoint);
                assert(e.seen[q].last_seen_unix >= e.seen[e.seen.len() - 1].last_seen_unix);
            }
        }
    }
}

/// What is remembered of a peer stays in order when an endpoint is forgotten.
pub proof fn law_evict_tidy(e: EntryModel, ep: SocketAddrV6)
    requires
        e.tidy(),
    ensures
        e.without(ep).tidy(),
{
    lemma_filter_tidy(e, |c: CachedEndpoint| c.endpoint != candidates::normal(ep));
}

/// Of an endpoint that is forgotten nothing remains, while all else does.
pub proof fn law_evict_forgets(e: EntryModel, ep: SocketAddrV6)
    ensures
        e.last_good != Some(candidates::normal(ep)) ==> e.without(ep).last_good == e.last_good,
        e.without(ep).last_good != Some(candidates::normal(ep)),
        forall|c: CachedEndpoint| #[trigger]
            e.without(ep).seen.contains(c) <==> e.seen.contains(c) && c.endpoint
                != candidates::normal(ep),
{
    let alive = |c: CachedEndpoint| c.endpoint != candidates::normal(ep);
    seqs::lemma_filter_members(e.seen, alive);
}

/// Forgetting an endpoint twice is forgetting it once.
pub proof fn law_evict_idempotent(e: EntryModel, ep: SocketAddrV6)
    ensures
        e.without(ep).without(ep) == e.without(ep),
{
    let dead = candidates::normal(ep);
    let alive = |c: CachedEndpoint| c.endpoint != dead;
    seqs::lemma_filter_twice(e.seen, alive);
}

/// Recording one peer's endpoint, or forgetting it, leaves every other peer
/// as it was.
pub proof fn law_other_peers_untouched(
    cache: Map<Seq<char>, EntryModel>,
    key: Seq<char>,
    other: Seq<char>,
    changed: EntryModel,
)
    requires
        key != other,
    ensures
        remembered(cache.insert(key, changed), other) == remembered(cache, other),
{
}

/// What is remembered of a peer is its entry, and nothing without one.
pub proof fn law_remembered(cache: Map<Seq<char>, EntryModel>, key: Seq<char>)
    ensures
        cache.dom().contains(key) ==> remembered(cache, key) == cache[key],
        !cache.dom().contains(key) ==> remembered(cache, key).last_good is None
            && remembered(cache, key).seen.len() == 0,
{
}

proof fn lemma_touched_split(s: Seq<CachedEndpoint>, ep: SocketAddrV6, now: u64, k: int)
    requires
        0 <= k <= s.len(),
        forall|j: int| 0 <= j < k ==> (#[trigger] s[j]).endpoint != ep,
        k < s.len() ==> s[k].endpoint == ep,
    ensures
        ({
            let t = touched(s, ep, now);
            let stamped = CachedEndpoint { endpoint: ep, last_seen_unix: now };
            &&& t.contains(stamped)
            &&& t.len() == if k < s.len() {
                s.len()
            } else {
                s.len() + 1
            }
            &&& forall|c: CachedEndpoint| #[trigger] t.contains(c) ==> c == stamped || s.contains(c)
            &&& forall|c: CachedEndpoint|
                #[trigger] s.contains(c) && c.endpoint != ep ==> t.contains(c)
        }),
{
    let t = touched(s, ep, now);
    let stamped = CachedEndpoint { endpoint: ep, last_seen_unix: now };
    lemma_touched(s, ep, now, k);
    assert(t[k] == stamped);
    assert forall|c: CachedEndpoint| #[trigger] t.contains(c) implies c == stamped || s.contains(
        c,
    ) by {
        let i = choose|i: int| 0 <= i < t.len() && t[i] == c;
        if i != k {
            assert(s[i] == c);
        }
    }
    assert forall|c: CachedEndpoint| #[trigger] s.contains(c) && c.endpoint != ep implies t.contains(
        c,
    ) by {
        let i = choose|i: int| 0 <= i < s.len() && s[i] == c;
        assert(t[i] == c);
    }
}

proof fn lemma_first_of(s: Seq<CachedEndpoint>, ep: SocketAddrV6) -> (k: int)
    ensures
        0 <= k <= s.len(),
        forall|j: int| 0 <= j < k ==> (#[trigger] s[j]).endpoint != ep,
        k < s.len() ==> s[k].endpoint == ep,
{
    let hit = |c: CachedEndpoint| c.endpoint == ep;
    let k = seqs::first_where(s, hit);
    seqs::lemma_first_where(s, hit);
    assert forall|j: int| 0 <= j < k implies (#[trigger] s[j]).endpoint != ep by {
        assert(!hit(s[j]));
    }
    k
}

/// An endpoint that works is remembered with the time at which it did, as long
/// as there is room, or when it is the most recent; it then comes first.
pub proof fn law_good_endpoint_is_remembered(e: EntryModel, ep: SocketAddrV6, now: u64)
    ensures
        ({
            let out = e.after_good(ep, now);
            let stamped = CachedEndpoint { endpoint: candidates::normal(ep), last_seen_unix: now };
            &&& e.seen.len() < 8 ==> out.seen.contains(stamped)
            &&& (forall|i: int|
                0 <= i < e.seen.len() ==> (#[trigger] e.seen[i]).last_seen_unix < now)
                ==> out.seen.len() > 0 && out.seen[0] == stamped
        }),
{
    let n = candidates::normal(ep);
    let stamped = CachedEndpoint { endpoint: n, last_seen_unix: now };
    let k = lemma_first_of(e.seen, n);
    lemma_touched_split(e.seen, n, now, k);
    let t = touched(e.seen, n, now);
    let sorted = newest_first(t);
    law_newest_first(t);
    lemma_newest_first_members(t);
    let p = choose|p: int| 0 <= p < sorted.len() && sorted[p] == stamped;
    assert(sorted.contains(stamped));
    let out = e.after_good(ep, now).seen;
    if e.seen.len() < 8 {
        assert(out[p] == stamped);
    }
    if forall|i: int| 0 <= i < e.seen.len() ==> (#[trigger] e.seen[i]).last_seen_unix < now {
        assert(sorted[0].last_seen_unix >= sorted[p].last_seen_unix);
        assert(sorted.contains(sorted[0]));
        assert(t.contains(sorted[0]));
        if sorted[0] != stamped {
            let i = choose|i: int| 0 <= i < e.seen.len() && e.seen[i] == sorted[0];
            assert(e.seen[i].last_seen_unix < now);
        }
        assert(out[0] == sorted[0]);
    }
}

/// Remembering an endpoint makes nothing up, keeps every other endpoint while
/// there is room, and drops none that is more recent than one it keeps.
pub proof fn law_good_endpoint_keeps_others(
    e: EntryModel,
    ep: SocketAddrV6,
    now: u64,
    c: CachedEndpoint,
    x: CachedEndpoint,
)
    ensures
        ({
            let out = e.after_good(ep, now).seen;
            let n = candidates::normal(ep);
            &&& out.contains(c) ==> e.seen.contains(c) || (c.endpoint == n && c.last_seen_unix
                == now)
            &&& e.seen.contains(c) && c.endpoint != n && e.seen.len() < 8 ==> out.contains(c)
            &&& e.seen.contains(c) && c.endpoint != n && !out.contains(c) && out.contains(x)
                ==> x.last_seen_unix >= c.last_seen_unix
        }),
{
    let n = candidates::normal(ep);
    let k = lemma_first_of(e.seen, n);
    lemma_touched_split(e.seen, n, now, k);
    let t = touched(e.seen, n, now);
    let sorted = newest_first(t);
    law_newest_first(t);
    lemma_newest_first_members(t);
    let out = e.after_good(ep, now).seen;
    if out.contains(c) {
        let i = choose|i: int| 0 <= i < out.len() && out[i] == c;
        assert(sorted[i] == c);
        assert(sorted.contains(c));
        assert(t.contains(c));
    }
    if e.seen.contains(c) && c.endpoint != n {
        assert(t.contains(c));
        assert(sorted.contains(c));
        let p = choose|p: int| 0 <= p < sorted.len() && sorted[p] == c;
        if p < out.len() {
            assert(out[p] == c);
        } else if out.contains(x) {
            let i = choose|i: int| 0 <= i < out.len() && out[i] == x;
            assert(sorted[i] == x);
            assert(sorted[i].last_seen_unix >= sorted[p].last_seen_unix);
        }
    }
}

/// Ordered by recency, no entry stands before a more recent one, and nothing is
/// lost or made up.
pub proof fn law_recent_before_older(s: Seq<CachedEndpoint>, c: CachedEndpoint, i: int, j: int)
    ensures
        newest_first(s).len() == s.len(),
        newest_first(s).contains(c) <==> s.contains(c),
        0 <= i <= j < s.len() ==> newest_first(s)[i].last_seen_unix
            >= newest_first(s)[j].last_seen_unix,
{
    law_newest_first(s);
    lemma_newest_first_members(s);
}

/// A file of version 1 is taken as it is, and one of any other version counts as
/// empty.
pub proof fn law_other_cache_versions_are_ignored(
    version: u32,
    content: Map<Seq<char>, EntryModel>,
    key: Seq<char>,
)
    ensures
        version == 1 ==> EndpointCache::counted(version, content) == content,
        version != 1 ==> !EndpointCache::counted(version, content).dom().contains(key),
{
}

} // verus!
