//! What the node is doing, as shown to the outside.

use crate::addr::{Ipv6Addr, SocketAddrV6};
use crate::cache::CachedEndpoint;
use crate::candidates::{self, normalize, CandidateSources, Source};
use crate::route::Ipv6Route;
use crate::time::{self, SystemTime};
use vstd::prelude::*;

verus! {

/// The version of the state file.
pub const STATE_VERSION: u32 = 5;

/// What the node is doing.
#[derive(Debug)]
pub struct EngineState {
    /// The version of the file.
    pub version: u32,
    /// When this was written, in Unix seconds.
    pub updated_unix: u64,
    /// The name of the interface.
    pub interface: String,
    /// The node's overlay address.
    pub node_address: Ipv6Addr,
    /// The base64 of the node's public key.
    pub node_public_key: String,
    /// The peers.
    pub peers: Vec<PeerState>,
}

/// What the node is doing about a peer.
#[derive(Debug)]
pub struct PeerState {
    /// The peer's name.
    pub name: String,
    /// The base64 of its public key.
    pub public_key: String,
    /// Its overlay address.
    pub address: Ipv6Addr,
    /// `probing`, `connected` or `relayed`.
    pub punch_state: String,
    /// The endpoint in use.
    pub endpoint: Option<SocketAddrV6>,
    /// Where that endpoint is known from.
    pub endpoint_source: String,
    /// How many endpoints the local network reports.
    pub lan_endpoints: usize,
    /// How many endpoints gossip reports.
    pub gossip_endpoints: usize,
    /// How many endpoints the peer's own domain reports.
    pub ddns_endpoints: usize,
    /// The relay in use.
    pub relay_via: Option<String>,
    /// The routes installed for the peer.
    pub routes: Vec<Ipv6Route>,
    /// How long ago the last handshake took place, in seconds.
    pub last_handshake_secs: Option<u64>,
    /// The bytes received.
    pub rx_bytes: u64,
    /// The bytes sent.
    pub tx_bytes: u64,
    /// How many candidates there are.
    pub candidates: usize,
    /// The candidate being tried.
    pub candidate_index: usize,
    /// How many times all candidates have been tried.
    pub rounds: u32,
}

/// The whole seconds since the epoch; zero for a time before it.
pub open spec fn seconds(t: int) -> int {
    if t < time::epoch() {
        0
    } else {
        t / time::NANOS_PER_SEC as int
    }
}

/// The whole seconds since the epoch; zero for a time before it.
pub fn unix_secs(t: SystemTime) -> (s: u64)
    ensures
        s == seconds(t@),
{
    t.unix_secs()
}

/// Whether some endpoint of `s` is `ep` after normalization.
pub open spec fn has_endpoint(s: Seq<SocketAddrV6>, ep: SocketAddrV6) -> bool {
    exists|i: int| 0 <= i < s.len() && candidates::normal(#[trigger] s[i]) == ep
}

/// The first report of `ep`, the number of reports when there is none.
pub open spec fn report_index(s: Seq<(Source, SocketAddrV6)>, ep: SocketAddrV6) -> int {
    crate::seqs::first_where(s, |d: (Source, SocketAddrV6)| candidates::normal(d.1) == ep)
}

/// What explains best that `endpoint` is in use.
///
/// The relay comes first, since its port is nobody else's; the configuration
/// next, since the user wrote it; then the layers that report it, then memory.
/// An endpoint that nothing explains was learnt from the peer's packets.
pub open spec fn explanation(
    endpoint: Option<SocketAddrV6>,
    relay: Option<SocketAddrV6>,
    configured: Seq<SocketAddrV6>,
    discovered: Seq<(Source, SocketAddrV6)>,
    cached: Seq<CachedEndpoint>,
) -> Seq<char> {
    match endpoint {
        None => "none"@,
        Some(raw) => {
            let ep = candidates::normal(raw);
            let k = report_index(discovered, ep);
            if relay is Some && candidates::normal(relay->Some_0) == ep {
                "relay"@
            } else if has_endpoint(configured, ep) {
                "config"@
            } else if k < discovered.len() {
                discovered[k].0.name()
            } else if has_endpoint(candidates::endpoints_of(cached), ep) {
                "cache"@
            } else {
                "roamed"@
            }
        },
    }
}

/// Names what explains best that an endpoint is in use: `relay`, `config`, the
/// name of a rendezvous layer, `cache`, `roamed`, or `none` without endpoint.
pub fn endpoint_source(endpoint: Option<SocketAddrV6>, sources: &CandidateSources<'_>) -> (s:
    &'static str)
    ensures
        s@ == explanation(
            endpoint,
            sources.relay,
            sources.configured@,
            sources.discovered@,
            sources.cached@,
        ),
{
    let ep = match endpoint {
        Some(raw) => normalize(raw),
        None => {
            return "none";
        },
    };
    if let Some(r) = sources.relay {
        if normalize(r) == ep {
            return "relay";
        }
    }
    let mut i: usize = 0;
    while i < sources.configured.len()
        invariant
            i <= sources.configured.len(),
            forall|j: int| 0 <= j < i ==> candidates::normal(#[trigger] sources.configured@[j]) != ep,
            endpoint is Some,
            ep == candidates::normal(endpoint->Some_0),
            !(sources.relay is Some && candidates::normal(sources.relay->Some_0) == ep),
        decreases sources.configured.len() - i,
    {
        if normalize(sources.configured[i]) == ep {
            assert(has_endpoint(sources.configured@, ep));
            return "config";
        }
        i = i + 1;
    }
    assert(!has_endpoint(sources.configured@, ep));
    let ghost hit = |d: (Source, SocketAddrV6)| candidates::normal(d.1) == ep;
    let mut i: usize = 0;
    while i < sources.discovered.len()
        invariant
            i <= sources.discovered.len(),
            hit == (|d: (Source, SocketAddrV6)| candidates::normal(d.1) == ep),
            forall|j: int| 0 <= j < i ==> !hit(#[trigger] sources.discovered@[j]),
            endpoint is Some,
            ep == candidates::normal(endpoint->Some_0),
            !(sources.relay is Some && candidates::normal(sources.relay->Some_0) == ep),
            !has_endpoint(sources.configured@, ep),
        decreases sources.discovered.len() - i,
    {
        if normalize(sources.discovered[i].1) == ep {
            proof {
                crate::seqs::lemma_first_where_is(sources.discovered@, hit, i as int);
            }
            return sources.discovered[i].0.as_str();
        }
        i = i + 1;
    }
    proof {
        crate::seqs::lemma_first_where_is(sources.discovered@, hit, i as int);
    }
    let mut i: usize = 0;
    let ghost remembered = candidates::endpoints_of(sources.cached@);
    while i < sources.cached.len()
        invariant
            i <= sources.cached.len(),
            remembered == candidates::endpoints_of(sources.cached@),
            forall|j: int| 0 <= j < i ==> candidates::normal(#[trigger] remembered[j]) != ep,
            endpoint is Some,
            ep == candidates::normal(endpoint->Some_0),
            !(sources.relay is Some && candidates::normal(sources.relay->Some_0) == ep),
            !has_endpoint(sources.configured@, ep),
            report_index(sources.discovered@, ep) == sources.discovered@.len(),
        decreases sources.cached.len() - i,
    {
        let c: CachedEndpoint = sources.cached[i];
        assert(remembered[i as int] == c.endpoint);
        if normalize(c.endpoint) == ep {
            assert(has_endpoint(remembered, ep));
            return "cache";
        }
        i = i + 1;
    }
    assert(!has_endpoint(remembered, ep));
    "roamed"
}

/// Flow information and scope of an endpoint do not change its explanation.
pub proof fn law_explanation_ignores_scope(
    a: SocketAddrV6,
    b: SocketAddrV6,
    relay: Option<SocketAddrV6>,
    configured: Seq<SocketAddrV6>,
    discovered: Seq<(Source, SocketAddrV6)>,
    cached: Seq<CachedEndpoint>,
)
    requires
        candidates::normal(a) == candidates::normal(b),
    ensures
        explanation(Some(a), relay, configured, discovered, cached) == explanation(
            Some(b),
            relay,
            configured,
            discovered,
            cached,
        ),
{
}

/// What the user wrote explains an endpoint better than any layer or memory.
pub proof fn law_configuration_explains_first(
    ep: SocketAddrV6,
    relay: Option<SocketAddrV6>,
    configured: Seq<SocketAddrV6>,
    discovered: Seq<(Source, SocketAddrV6)>,
    cached: Seq<CachedEndpoint>,
)
    requires
        has_endpoint(configured, candidates::normal(ep)),
        relay matches Some(r) ==> candidates::normal(r) != candidates::normal(ep),
    ensures
        explanation(Some(ep), relay, configured, discovered, cached) == "config"@,
{
}

/// The whole seconds of a time: no more than it, and less than a second short of
/// it.
pub proof fn law_seconds_round_down(t: int)
    ensures
        t >= 0 ==> seconds(t) * 1_000_000_000 <= t < (seconds(t) + 1) * 1_000_000_000,
        t < 0 ==> seconds(t) == 0,
{
}

/// What explains an endpoint, the best explanation first: the relay, the
/// configuration, the first layer that reports it, the cache; what nothing
/// explains has roamed.
pub proof fn law_best_explanation(
    ep: SocketAddrV6,
    relay: Option<SocketAddrV6>,
    configured: Seq<SocketAddrV6>,
    discovered: Seq<(Source, SocketAddrV6)>,
    cached: Seq<CachedEndpoint>,
    k: int,
)
    requires
        0 <= k <= discovered.len(),
        forall|j: int|
            0 <= j < k ==> candidates::normal((#[trigger] discovered[j]).1) != candidates::normal(
                ep,
            ),
        k < discovered.len() ==> candidates::normal(discovered[k].1) == candidates::normal(ep),
    ensures
        ({
            let n = candidates::normal(ep);
            let why = explanation(Some(ep), relay, configured, discovered, cached);
            let over_relay = relay is Some && candidates::normal(relay->Some_0) == n;
            let written = exists|i: int|
                0 <= i < configured.len() && candidates::normal(#[trigger] configured[i]) == n;
            let kept = exists|i: int|
                0 <= i < cached.len() && candidates::normal((#[trigger] cached[i]).endpoint) == n;
            if over_relay {
                why == "relay"@
            } else if written {
                why == "config"@
            } else if k < discovered.len() {
                why == match discovered[k].0 {
                    Source::Lan => "lan"@,
                    Source::Gossip => "gossip"@,
                    Source::Dht => "dht"@,
                    Source::Ddns => "ddns"@,
                }
            } else if kept {
                why == "cache"@
            } else {
                why == "roamed"@
            }
        }),
        explanation(None, relay, configured, discovered, cached) == "none"@,
{
    let n = candidates::normal(ep);
    let hit = |d: (Source, SocketAddrV6)| candidates::normal(d.1) == n;
    assert forall|j: int| 0 <= j < k implies !hit(#[trigger] discovered[j]) by {}
    crate::seqs::lemma_first_where_is(discovered, hit, k);
    let kept = exists|i: int|
        0 <= i < cached.len() && candidates::normal((#[trigger] cached[i]).endpoint) == n;
    let all = candidates::endpoints_of(cached);
    if kept {
        let i = choose|i: int|
            0 <= i < cached.len() && candidates::normal((#[trigger] cached[i]).endpoint) == n;
        assert(candidates::normal(all[i]) == n);
    }
    if has_endpoint(all, n) {
        let i = choose|i: int| 0 <= i < all.len() && candidates::normal(#[trigger] all[i]) == n;
        assert(candidates::normal(cached[i].endpoint) == n);
    }
}

} // verus!
