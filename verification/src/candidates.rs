//! Candidate endpoints of a peer.
//!
//! With IPv6 a node always picks its own port, so what a rendezvous layer
//! learns is only where a peer is now. Punching through is then a matter of
//! taking turns among a few candidates until one of them answers a handshake.

use crate::addr::SocketAddrV6;
use crate::cache::{self, sort_newest_first, CachedEndpoint};
use crate::seqs;
use vstd::prelude::*;

verus! {

/// The most candidates a list holds.
///
/// Candidates take turns every 2.5 seconds, so eight of them are tried in
/// twenty seconds; the rest is dropped.
pub const MAX_CANDIDATES: usize = 8;

/// A rendezvous layer that reports where a peer is.
#[derive(Clone, Copy, PartialEq, Eq, Debug, Structural)]
pub enum Source {
    /// Announcements multicast on the local network.
    Lan,
    /// Gossip inside the tunnels.
    Gossip,
    /// The distributed hash table.
    Dht,
    /// Records under the user's own domain.
    Ddns,
}

impl Source {
    /// The place of the layer in the fallback chain, the first being 0.
    pub open spec fn rank(self) -> int {
        match self {
            Source::Lan => 0,
            Source::Gossip => 1,
            Source::Dht => 2,
            Source::Ddns => 3,
        }
    }

    /// The name of the layer.
    pub open spec fn name(self) -> Seq<char> {
        match self {
            Source::Lan => "lan"@,
            Source::Gossip => "gossip"@,
            Source::Dht => "dht"@,
            Source::Ddns => "ddns"@,
        }
    }

    /// The place of the layer in the fallback chain, the first being 0.
    pub fn priority(self) -> (p: u8)
        ensures
            p == self.rank(),
    {
        match self {
            Source::Lan => 0,
            Source::Gossip => 1,
            Source::Dht => 2,
            Source::Ddns => 3,
        }
    }

    /// The name of the layer, as status output shows it.
    pub fn as_str(self) -> (s: &'static str)
        ensures
            s@ == self.name(),
    {
        match self {
            Source::Lan => "lan",
            Source::Gossip => "gossip",
            Source::Dht => "dht",
            Source::Ddns => "ddns",
        }
    }
}

/// What a rendezvous layer currently knows of one peer.
#[derive(Clone, Debug)]
pub struct DiscoveredEndpoints {
    /// The layer that reports.
    pub source: Source,
    /// The public key of the peer, in base64.
    pub peer_key: String,
    /// All the endpoints that the layer knows for the peer.
    pub endpoints: Vec<SocketAddrV6>,
}

/// Where candidates come from.
#[derive(Clone, Copy, Debug)]
pub struct CandidateSources<'a> {
    /// The endpoint that worked last.
    pub last_good: Option<SocketAddrV6>,
    /// What the rendezvous layers report now, in the order of the layers.
    pub discovered: &'a [(Source, SocketAddrV6)],
    /// The endpoints written in the configuration, in that order.
    pub configured: &'a [SocketAddrV6],
    /// Endpoints that worked in the past.
    pub cached: &'a [CachedEndpoint],
    /// The endpoint of the relay session, when there is one.
    pub relay: Option<SocketAddrV6>,
}

/// The endpoint with flow information and scope cleared.
pub open spec fn normal(ep: SocketAddrV6) -> SocketAddrV6 {
    SocketAddrV6 { ip: ep.ip, port: ep.port, flowinfo: 0, scope_id: 0 }
}

/// Whether all endpoints have flow information and scope cleared.
pub open spec fn all_normal(s: Seq<SocketAddrV6>) -> bool {
    forall|i: int| 0 <= i < s.len() ==> #[trigger] s[i] == normal(s[i])
}

/// Every endpoint of `s` with flow information and scope cleared.
pub open spec fn normals(s: Seq<SocketAddrV6>) -> Seq<SocketAddrV6> {
    s.map_values(|ep: SocketAddrV6| normal(ep))
}

/// The endpoints of reports, in their order.
pub open spec fn reported(s: Seq<(Source, SocketAddrV6)>) -> Seq<SocketAddrV6> {
    s.map_values(|d: (Source, SocketAddrV6)| d.1)
}

/// The endpoints of cache entries, in their order.
pub open spec fn endpoints_of(s: Seq<CachedEndpoint>) -> Seq<SocketAddrV6> {
    s.map_values(|c: CachedEndpoint| c.endpoint)
}

/// Every direct endpoint in the order in which it is worth trying: the one
/// that worked last, what is reported now, what is configured, what worked in
/// the past with the most recent first.
pub open spec fn ranking(
    last_good: Option<SocketAddrV6>,
    discovered: Seq<(Source, SocketAddrV6)>,
    configured: Seq<SocketAddrV6>,
    cached: Seq<CachedEndpoint>,
) -> Seq<SocketAddrV6> {
    seqs::optional(last_good) + reported(discovered) + configured + endpoints_of(
        cache::newest_first(cached),
    )
}

/// The candidates: the ranked endpoints without repetition, and the relay
/// behind them, at most `MAX_CANDIDATES` in all. A relay keeps its place.
pub open spec fn shortlist(ranked: Seq<SocketAddrV6>, relay: Option<SocketAddrV6>) -> Seq<
    SocketAddrV6,
> {
    let direct = seqs::first_distinct(normals(ranked));
    match relay {
        None => seqs::at_most(direct, MAX_CANDIDATES as int),
        Some(r) => {
            let kept = seqs::at_most(direct, MAX_CANDIDATES - 1);
            if kept.contains(normal(r)) {
                kept
            } else {
                kept.push(normal(r))
            }
        },
    }
}

impl<'a> CandidateSources<'a> {
    /// Every direct endpoint in the order in which it is worth trying.
    pub open spec fn ranked(self) -> Seq<SocketAddrV6> {
        ranking(self.last_good, self.discovered@, self.configured@, self.cached@)
    }

    /// The candidates.
    pub open spec fn list(self) -> Seq<SocketAddrV6> {
        shortlist(self.ranked(), self.relay)
    }
}

impl<'a> Default for CandidateSources<'a> {
    /// No source at all.
    fn default() -> (s: Self)
        ensures
            s.last_good is None,
            s.discovered@.len() == 0,
            s.configured@.len() == 0,
            s.cached@.len() == 0,
            s.relay is None,
    {
        CandidateSources { last_good: None, discovered: &[], configured: &[], cached: &[], relay: None }
    }
}

/// Clears the flow information and the scope of an endpoint.
///
/// A device reports endpoints with these two fields set as it pleases, so
/// endpoints of different origin compare only after this.
pub fn normalize(ep: SocketAddrV6) -> (n: SocketAddrV6)
    ensures
        n == normal(ep),
{
    SocketAddrV6::new(ep.ip, ep.port, 0, 0)
}

/// Tells whether an endpoint stands in a list.
pub fn contains_endpoint(list: &[SocketAddrV6], ep: SocketAddrV6) -> (found: bool)
    ensures
        found == list@.contains(ep),
{
    let mut i: usize = 0;
    while i < list.len()
        invariant
            i <= list.len(),
            forall|j: int| 0 <= j < i ==> list@[j] != ep,
        decreases list.len() - i,
    {
        if list[i] == ep {
            assert(list@[i as int] == ep);
            return true;
        }
        i = i + 1;
    }
    false
}

/// Tells whether two lists hold the same endpoints in the same order.
pub fn same_list(a: &[SocketAddrV6], b: &[SocketAddrV6]) -> (same: bool)
    ensures
        same == (a@ == b@),
{
    if a.len() != b.len() {
        return false;
    }
    let mut i: usize = 0;
    while i < a.len()
        invariant
            i <= a.len(),
            a.len() == b.len(),
            a@.take(i as int) == b@.take(i as int),
        decreases a.len() - i,
    {
        if a[i] != b[i] {
            assert(a@[i as int] != b@[i as int]);
            return false;
        }
        assert(a@.take(i + 1) =~= a@.take(i as int).push(a@[i as int]));
        assert(b@.take(i + 1) =~= b@.take(i as int).push(b@[i as int]));
        i = i + 1;
    }
    assert(a@.take(i as int) =~= a@);
    assert(b@.take(i as int) =~= b@);
    true
}

/// `list` with an endpoint added, unless it is there or the list is full.
pub open spec fn with_unique(
    list: Seq<SocketAddrV6>,
    ep: SocketAddrV6,
    limit: int,
) -> Seq<SocketAddrV6> {
    if list.len() < limit && !list.contains(ep) {
        list.push(ep)
    } else {
        list
    }
}

fn push_unique(out: &mut Vec<SocketAddrV6>, ep: SocketAddrV6, limit: usize)
    ensures
        final(out)@ == with_unique(old(out)@, normal(ep), limit as int),
{
    let ep = normalize(ep);
    if out.len() < limit && !contains_endpoint(out.as_slice(), ep) {
        out.push(ep);
    }
}

proof fn lemma_push_ranked(s: Seq<SocketAddrV6>, ep: SocketAddrV6, limit: int)
    requires
        limit >= 0,
    ensures
        seqs::at_most(seqs::first_distinct(normals(s.push(ep))), limit) == with_unique(
            seqs::at_most(seqs::first_distinct(normals(s)), limit),
            normal(ep),
            limit,
        ),
{
    let n = normals(s);
    let d = seqs::first_distinct(n);
    assert(normals(s.push(ep)) =~= n.push(normal(ep)));
    assert(n.push(normal(ep)).drop_last() =~= n);
    if d.len() >= limit {
        assert(d.push(normal(ep)).take(limit) =~= d.take(limit));
        assert(d.take(d.len() as int) =~= d);
    }
}

/// Assembles the candidates of a peer.
///
/// The endpoint that worked last comes first, which makes reconnecting after
/// a restart fastest. What a rendezvous layer reports now is live evidence and
/// precedes what somebody wrote down once; the configuration in turn precedes
/// memories. A relay comes last, as the way out, and is never crowded out.
pub fn build_candidates(sources: &CandidateSources<'_>) -> (list: Vec<SocketAddrV6>)
    ensures
        list@ == sources.list(),
{
    let limit: usize = if sources.relay.is_some() {
        MAX_CANDIDATES - 1
    } else {
        MAX_CANDIDATES
    };
    let mut out: Vec<SocketAddrV6> = Vec::new();
    let ghost mut done: Seq<SocketAddrV6> = seq![];
    assert(normals(done) =~= seq![]);
    if let Some(ep) = sources.last_good {
        proof {
            lemma_push_ranked(done, ep, limit as int);
            done = done.push(ep);
        }
        push_unique(&mut out, ep, limit);
    }
    assert(done =~= seqs::optional(sources.last_good));
    let ghost before = done;
    let mut i: usize = 0;
    assert(before + reported(sources.discovered@).take(0) =~= done);
    while i < sources.discovered.len()
        invariant
            i <= sources.discovered.len(),
            done == before + reported(sources.discovered@).take(i as int),
            out@ == seqs::at_most(seqs::first_distinct(normals(done)), limit as int),
        decreases sources.discovered.len() - i,
    {
        let ep = sources.discovered[i].1;
        proof {
            lemma_push_ranked(done, ep, limit as int);
            assert(done.push(ep) =~= before + reported(sources.discovered@).take(i + 1));
            done = done.push(ep);
        }
        push_unique(&mut out, ep, limit);
        i = i + 1;
    }
    let ghost before = done;
    let mut i: usize = 0;
    assert(before + sources.configured@.take(0) =~= done);
    while i < sources.configured.len()
        invariant
            i <= sources.configured.len(),
            done == before + sources.configured@.take(i as int),
            out@ == seqs::at_most(seqs::first_distinct(normals(done)), limit as int),
        decreases sources.configured.len() - i,
    {
        let ep = sources.configured[i];
        proof {
            lemma_push_ranked(done, ep, limit as int);
            assert(done.push(ep) =~= before + sources.configured@.take(i + 1));
            done = done.push(ep);
        }
        push_unique(&mut out, ep, limit);
        i = i + 1;
    }
    let sorted = sort_newest_first(sources.cached);
    let ghost before = done;
    let mut i: usize = 0;
    assert(before + endpoints_of(sorted@).take(0) =~= done);
    while i < sorted.len()
        invariant
            i <= sorted.len(),
            done == before + endpoints_of(sorted@).take(i as int),
            out@ == seqs::at_most(seqs::first_distinct(normals(done)), limit as int),
        decreases sorted.len() - i,
    {
        let ep = sorted[i].endpoint;
        proof {
            lemma_push_ranked(done, ep, limit as int);
            assert(done.push(ep) =~= before + endpoints_of(sorted@).take(i + 1));
            done = done.push(ep);
        }
        push_unique(&mut out, ep, limit);
        i = i + 1;
    }
    assert(done =~= sources.ranked());
    if let Some(r) = sources.relay {
        push_unique(&mut out, r, MAX_CANDIDATES);
    }
    out
}

/// Clearing flow information and scope twice is clearing them once.
pub proof fn law_normalize_idempotent(ep: SocketAddrV6)
    ensures
        normal(normal(ep)) == normal(ep),
{
}

/// A candidate list never repeats an endpoint, holds at most `MAX_CANDIDATES`
/// of them, all with flow information and scope cleared, and none that no
/// source names.
pub proof fn law_candidates_bounded_and_distinct(
    ranked: Seq<SocketAddrV6>,
    relay: Option<SocketAddrV6>,
)
    ensures
        shortlist(ranked, relay).len() <= MAX_CANDIDATES,
        shortlist(ranked, relay).no_duplicates(),
        all_normal(shortlist(ranked, relay)),
        forall|ep: SocketAddrV6| #[trigger]
            shortlist(ranked, relay).contains(ep) ==> normals(ranked).contains(ep) || (relay is Some
                && ep == normal(relay->Some_0)),
{
    let n = normals(ranked);
    seqs::lemma_first_distinct(n);
    let d = seqs::first_distinct(n);
    let list = shortlist(ranked, relay);
    let kept = seqs::at_most(
        d,
        if relay is Some {
            MAX_CANDIDATES - 1
        } else {
            MAX_CANDIDATES as int
        },
    );
    assert forall|i: int| 0 <= i < kept.len() implies #[trigger] d.contains(kept[i]) by {
        assert(kept[i] == d[i]);
    }
    assert forall|ep: SocketAddrV6| #[trigger] list.contains(ep) implies n.contains(ep) || (
    relay is Some && ep == normal(relay->Some_0)) by {
        let k = choose|k: int| 0 <= k < list.len() && list[k] == ep;
        if k < kept.len() {
            assert(d.contains(kept[k]));
        }
    }
    assert forall|i: int| 0 <= i < list.len() implies #[trigger] list[i] == normal(list[i]) by {
        assert(list.contains(list[i]));
        if n.contains(list[i]) {
            let k = choose|k: int| 0 <= k < n.len() && n[k] == list[i];
            assert(n[k] == normal(ranked[k]));
        }
    }
}

/// The endpoint that worked last is the first candidate.
pub proof fn law_last_good_first(
    last_good: SocketAddrV6,
    discovered: Seq<(Source, SocketAddrV6)>,
    configured: Seq<SocketAddrV6>,
    cached: Seq<CachedEndpoint>,
    relay: Option<SocketAddrV6>,
)
    ensures
        ({
            let list = shortlist(ranking(Some(last_good), discovered, configured, cached), relay);
            list.len() > 0 && list[0] == normal(last_good)
        }),
{
    let ranked = ranking(Some(last_good), discovered, configured, cached);
    let n = normals(ranked);
    assert(n[0] == normal(ranked[0]));
    seqs::lemma_first_distinct(n);
}

/// A relay stays among the candidates however many direct ones there are.
pub proof fn law_relay_kept(ranked: Seq<SocketAddrV6>, relay: SocketAddrV6)
    ensures
        shortlist(ranked, Some(relay)).contains(normal(relay)),
{
    let r = normal(relay);
    let kept = seqs::at_most(seqs::first_distinct(normals(ranked)), MAX_CANDIDATES - 1);
    if !kept.contains(r) {
        assert(shortlist(ranked, Some(relay))[kept.len() as int] == r);
    }
}

/// Nothing is dropped while there is room: with at most `MAX_CANDIDATES`
/// different endpoints, one place less when there is a relay, every one of them
/// is a candidate.
pub proof fn law_nothing_dropped_within_limit(
    ranked: Seq<SocketAddrV6>,
    relay: Option<SocketAddrV6>,
)
    requires
        seqs::first_distinct(normals(ranked)).len() <= if relay is Some {
            MAX_CANDIDATES - 1
        } else {
            MAX_CANDIDATES as int
        },
    ensures
        forall|ep: SocketAddrV6| #[trigger]
            normals(ranked).contains(ep) ==> shortlist(ranked, relay).contains(ep),
{
    let direct = seqs::first_distinct(normals(ranked));
    let list = shortlist(ranked, relay);
    assert forall|i: int| 0 <= i < direct.len() implies list.contains(#[trigger] direct[i]) by {
        assert(list[i] == direct[i]);
    }
    seqs::lemma_first_distinct(normals(ranked));
}

/// Candidates keep the order of their sources: however the ranked endpoints
/// are cut in two, those of the first part come before those that only the
/// second part names.
pub proof fn law_earlier_sources_first(a: Seq<SocketAddrV6>, b: Seq<SocketAddrV6>)
    ensures
        seqs::first_distinct(normals(a + b)).take(seqs::first_distinct(normals(a)).len() as int)
            == seqs::first_distinct(normals(a)),
        shortlist(a + b, None).take(shortlist(a, None).len() as int) == shortlist(a, None),
{
    assert(normals(a + b) =~= normals(a) + normals(b));
    seqs::lemma_first_distinct_prefix(normals(a), normals(b));
    let whole = seqs::first_distinct(normals(a + b));
    let part = seqs::first_distinct(normals(a));
    assert forall|i: int| 0 <= i < part.len() implies #[trigger] part[i] == whole[i] by {
        assert(whole.take(part.len() as int)[i] == whole[i]);
    }
    assert(part.len() <= whole.len());
    assert(shortlist(a + b, None).take(shortlist(a, None).len() as int) =~= shortlist(a, None));
}

/// Clearing flow information and scope leaves the address and the port.
pub proof fn law_normal_keeps_the_place(ep: SocketAddrV6)
    ensures
        normal(ep).ip == ep.ip,
        normal(ep).port == ep.port,
        normal(ep).flowinfo == 0,
        normal(ep).scope_id == 0,
{
}

/// Everything that any source names is ranked, whichever layer reports it, and
/// nothing else is.
pub proof fn law_every_source_is_ranked(
    last_good: Option<SocketAddrV6>,
    discovered: Seq<(Source, SocketAddrV6)>,
    configured: Seq<SocketAddrV6>,
    cached: Seq<CachedEndpoint>,
    ep: SocketAddrV6,
)
    ensures
        ranking(last_good, discovered, configured, cached).contains(ep) <==> {
            ||| last_good == Some(ep)
            ||| exists|i: int| 0 <= i < discovered.len() && (#[trigger] discovered[i]).1 == ep
            ||| exists|i: int| 0 <= i < configured.len() && #[trigger] configured[i] == ep
            ||| exists|i: int| 0 <= i < cached.len() && (#[trigger] cached[i]).endpoint == ep
        },
{
    let a = seqs::optional(last_good);
    let b = reported(discovered);
    let sorted = cache::newest_first(cached);
    let d = endpoints_of(sorted);
    let all = ranking(last_good, discovered, configured, cached);
    assert(all =~= a + b + configured + d);
    cache::lemma_newest_first_members(cached);
    if all.contains(ep) {
        let k = choose|k: int| 0 <= k < all.len() && all[k] == ep;
        let x = a.len() as int;
        let y = x + b.len();
        let z = y + configured.len();
        if k < x {
            assert(a[k] == ep);
        } else if k < y {
            assert(discovered[k - x].1 == ep);
        } else if k < z {
            assert(configured[k - y] == ep);
        } else {
            let c = sorted[k - z];
            assert(d[k - z] == ep);
            assert(sorted.contains(c));
            assert(cached.contains(c));
            let i = choose|i: int| 0 <= i < cached.len() && cached[i] == c;
            assert(cached[i].endpoint == ep);
        }
    }
    if last_good == Some(ep) {
        assert(all[0] == ep);
    }
    if exists|i: int| 0 <= i < discovered.len() && (#[trigger] discovered[i]).1 == ep {
        let i = choose|i: int| 0 <= i < discovered.len() && (#[trigger] discovered[i]).1 == ep;
        assert(all[a.len() + i] == ep);
    }
    if exists|i: int| 0 <= i < configured.len() && #[trigger] configured[i] == ep {
        let i = choose|i: int| 0 <= i < configured.len() && #[trigger] configured[i] == ep;
        assert(all[a.len() + b.len() + i] == ep);
    }
    if exists|i: int| 0 <= i < cached.len() && (#[trigger] cached[i]).endpoint == ep {
        let i = choose|i: int| 0 <= i < cached.len() && (#[trigger] cached[i]).endpoint == ep;
        assert(cached.contains(cached[i]));
        assert(sorted.contains(cached[i]));
        let k = choose|k: int| 0 <= k < sorted.len() && sorted[k] == cached[i];
        assert(d[k] == ep);
        assert(all[a.len() + b.len() + configured.len() + k] == ep);
    }
}

/// The order in which endpoints are tried: the one that worked last, then every
/// report in its order, then every configured one in its order, then the
/// memories, a more recent one before an older one.
pub proof fn law_ranking_order(
    last_good: Option<SocketAddrV6>,
    discovered: Seq<(Source, SocketAddrV6)>,
    configured: Seq<SocketAddrV6>,
    cached: Seq<CachedEndpoint>,
    i: int,
    j: int,
)
    ensures
        ({
            let all = ranking(last_good, discovered, configured, cached);
            let first: int = if last_good is Some {
                1
            } else {
                0
            };
            let tail = first + discovered.len() + configured.len();
            &&& all.len() == tail + cached.len()
            &&& last_good matches Some(ep) ==> all[0] == ep
            &&& 0 <= i < discovered.len() ==> all[first + i] == discovered[i].1
            &&& 0 <= i < configured.len() ==> all[first + discovered.len() + i] == configured[i]
            &&& 0 <= i < j < cached.len() ==> exists|a: CachedEndpoint, b: CachedEndpoint|
                {
                    &&& #[trigger] cached.contains(a)
                    &&& #[trigger] cached.contains(b)
                    &&& a.endpoint == all[tail + i]
                    &&& b.endpoint == all[tail + j]
                    &&& a.last_seen_unix >= b.last_seen_unix
                }
        }),
{
    let sorted = cache::newest_first(cached);
    let a = seqs::optional(last_good);
    let b = reported(discovered);
    let d = endpoints_of(sorted);
    let all = ranking(last_good, discovered, configured, cached);
    assert(all =~= a + b + configured + d);
    cache::law_newest_first(cached);
    cache::lemma_newest_first_members(cached);
    if 0 <= i < j < cached.len() {
        assert(sorted.contains(sorted[i]) && sorted.contains(sorted[j]));
        assert(cached.contains(sorted[i]) && cached.contains(sorted[j]));
        assert(sorted[i].last_seen_unix >= sorted[j].last_seen_unix);
    }
}

/// As long as there is room, whatever any source names is a candidate, whether
/// or not there is a relay.
pub proof fn law_every_source_is_tried(
    last_good: Option<SocketAddrV6>,
    discovered: Seq<(Source, SocketAddrV6)>,
    configured: Seq<SocketAddrV6>,
    cached: Seq<CachedEndpoint>,
    relay: Option<SocketAddrV6>,
    i: int,
)
    requires
        discovered.len() + configured.len() + cached.len() <= 6,
    ensures
        ({
            let list = shortlist(ranking(last_good, discovered, configured, cached), relay);
            &&& last_good matches Some(ep) ==> list.contains(normal(ep))
            &&& 0 <= i < discovered.len() ==> list.contains(normal(discovered[i].1))
            &&& 0 <= i < configured.len() ==> list.contains(normal(configured[i]))
            &&& 0 <= i < cached.len() ==> list.contains(normal(cached[i].endpoint))
            &&& relay matches Some(r) ==> list.contains(normal(r))
        }),
{
    let all = ranking(last_good, discovered, configured, cached);
    law_ranking_order(last_good, discovered, configured, cached, 0, 0);
    seqs::lemma_first_distinct(normals(all));
    law_nothing_dropped_within_limit(all, relay);
    if last_good is Some {
        law_every_source_is_ranked(last_good, discovered, configured, cached, last_good->Some_0);
        lemma_normals_contain(all, last_good->Some_0);
    }
    if 0 <= i < discovered.len() {
        law_every_source_is_ranked(last_good, discovered, configured, cached, discovered[i].1);
        lemma_normals_contain(all, discovered[i].1);
    }
    if 0 <= i < configured.len() {
        law_every_source_is_ranked(last_good, discovered, configured, cached, configured[i]);
        lemma_normals_contain(all, configured[i]);
    }
    if 0 <= i < cached.len() {
        law_every_source_is_ranked(last_good, discovered, configured, cached, cached[i].endpoint);
        lemma_normals_contain(all, cached[i].endpoint);
    }
    if relay is Some {
        law_relay_kept(all, relay->Some_0);
    }
}

proof fn lemma_normals_contain(s: Seq<SocketAddrV6>, ep: SocketAddrV6)
    requires
        s.contains(ep),
    ensures
        normals(s).contains(normal(ep)),
{
    let k = choose|k: int| 0 <= k < s.len() && s[k] == ep;
    assert(normals(s)[k] == normal(ep));
}

/// No place is left empty while an endpoint is left out: eight places without a
/// relay, seven beside one.
pub proof fn law_no_place_left_empty(
    ranked: Seq<SocketAddrV6>,
    relay: Option<SocketAddrV6>,
    ep: SocketAddrV6,
)
    requires
        ranked.contains(ep),
        !shortlist(ranked, relay).contains(normal(ep)),
    ensures
        relay is None ==> shortlist(ranked, relay).len() == 8,
        relay is Some ==> shortlist(ranked, relay).len() >= 7,
        shortlist(ranked, relay).len() <= 8,
{
    let direct = seqs::first_distinct(normals(ranked));
    lemma_normals_contain(ranked, ep);
    seqs::lemma_first_distinct(normals(ranked));
    law_candidates_bounded_and_distinct(ranked, relay);
    let limit: int = if relay is Some {
        MAX_CANDIDATES - 1
    } else {
        MAX_CANDIDATES as int
    };
    if direct.len() <= limit {
        law_nothing_dropped_within_limit(ranked, relay);
    }
}

/// A relay is the last resort: it stands behind every direct candidate, unless
/// it is one itself, and does not change their order.
pub proof fn law_relay_is_last_resort(ranked: Seq<SocketAddrV6>, relay: SocketAddrV6, i: int)
    ensures
        !normals(ranked).contains(normal(relay)) ==> shortlist(ranked, Some(relay)).last()
            == normal(relay),
        0 <= i < 7 && i < shortlist(ranked, None).len() ==> i < shortlist(
            ranked,
            Some(relay),
        ).len() && shortlist(ranked, Some(relay))[i] == shortlist(ranked, None)[i],
{
    let direct = seqs::first_distinct(normals(ranked));
    seqs::lemma_first_distinct(normals(ranked));
    let kept = seqs::at_most(direct, MAX_CANDIDATES - 1);
    if kept.contains(normal(relay)) {
        let k = choose|k: int| 0 <= k < kept.len() && kept[k] == normal(relay);
        assert(direct[k] == normal(relay));
        assert(direct.contains(normal(relay)));
    }
}

} // verus!
