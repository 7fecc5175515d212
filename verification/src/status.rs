//! Putting together the status report.

use crate::fsm;
use crate::keys::same_key;
use crate::proto::{DaemonInfo, StatusReport, StatusRow};
use crate::seqs;
use crate::state::{self, unix_secs};
use crate::time::{self, SystemTime};
use vstd::prelude::*;

verus! {

/// How old the state file may be for the daemon to count as running, in
/// seconds.
pub const DAEMON_FRESH_SECS: u64 = 10;

/// How old a handshake may be for a peer to count as connected, in
/// nanoseconds: 180 s.
pub const CONNECTED_WITHIN: u128 = 180_000_000_000;

/// What the device reports of a peer, with its endpoint as text.
#[derive(Debug)]
pub struct DevicePeer {
    /// The WireGuard key.
    pub wg_public: [u8; 32],
    /// The endpoint that the device holds.
    pub endpoint: Option<String>,
    /// When the last handshake took place.
    pub last_handshake: Option<SystemTime>,
    /// The bytes received.
    pub rx_bytes: u64,
    /// The bytes sent.
    pub tx_bytes: u64,
}

/// A configured peer, with its address as text.
#[derive(Debug)]
pub struct ConfiguredPeer {
    /// Its name.
    pub name: String,
    /// The base64 of its public key.
    pub key_b64: String,
    /// Its WireGuard key.
    pub wg_public: [u8; 32],
    /// Its overlay address.
    pub address: String,
}

/// What the daemon's state file says of a peer, with its routes as text.
#[derive(Debug)]
pub struct EnginePeer {
    /// The base64 of its public key.
    pub public_key: String,
    /// `probing`, `connected` or `relayed`.
    pub punch_state: String,
    /// Where the endpoint is known from.
    pub endpoint_source: String,
    /// How many endpoints the local network reports.
    pub lan_endpoints: usize,
    /// How many endpoints gossip reports.
    pub gossip_endpoints: usize,
    /// How many endpoints the peer's own domain reports.
    pub ddns_endpoints: usize,
    /// The relay in use.
    pub relay_via: Option<String>,
    /// The routes installed for the peer.
    pub routes: Vec<String>,
    /// How many candidates there are.
    pub candidates: usize,
    /// The candidate being tried.
    pub candidate_index: usize,
}

/// What the daemon's state file says.
#[derive(Debug)]
pub struct EngineSnapshot {
    /// The version of the file.
    pub version: u32,
    /// When it was written, in Unix seconds.
    pub updated_unix: u64,
    /// The peers.
    pub peers: Vec<EnginePeer>,
}

/// The state of a connection whose last handshake was at `last`.
pub open spec fn class(last: Option<SystemTime>, now: int) -> Seq<char> {
    match last {
        None => "no-handshake"@,
        Some(t) => if 0 <= now - t@ < CONNECTED_WITHIN {
            "connected"@
        } else {
            "stale"@
        },
    }
}

/// Names the state of a connection by its last handshake: `connected` when it
/// is less than 180 s old, `stale` when it is older or in the future,
/// `no-handshake` when there was none.
pub fn classify(last_handshake: Option<SystemTime>, now: SystemTime) -> (s: &'static str)
    ensures
        s@ == class(last_handshake, now@),
{
    match last_handshake {
        Some(t) => match now.nanos_since(t) {
            Some(d) => if d < CONNECTED_WITHIN {
                "connected"
            } else {
                "stale"
            },
            None => "stale",
        },
        None => "no-handshake",
    }
}

/// How long ago the state was written; not at all when it seems to be written
/// in the future.
pub open spec fn secs_ago(updated_unix: u64, now_unix: u64) -> int {
    if updated_unix > now_unix {
        0
    } else {
        now_unix - updated_unix
    }
}

/// Tells whether the daemon is running, by when it last wrote its state, and
/// how many seconds ago that was.
pub fn daemon_freshness(updated_unix: u64, now_unix: u64) -> (r: (bool, u64))
    ensures
        r.1 == secs_ago(updated_unix, now_unix),
        r.0 == (secs_ago(updated_unix, now_unix) <= DAEMON_FRESH_SECS),
{
    let ago = now_unix.saturating_sub(updated_unix);
    (ago <= DAEMON_FRESH_SECS, ago)
}

/// How many whole seconds ago `t` was, nothing when it is in the future.
pub open spec fn seconds_since(t: Option<SystemTime>, now: int) -> Option<u64> {
    match t {
        Some(x) => if x@ <= now {
            Some(((now - x@) / time::NANOS_PER_SEC as int) as u64)
        } else {
            None
        },
        None => None,
    }
}

/// How many whole seconds ago a time was, nothing when it is in the future.
pub fn secs_since(t: Option<SystemTime>, now: SystemTime) -> (s: Option<u64>)
    ensures
        s == seconds_since(t, now@),
{
    match t {
        Some(x) => match now.nanos_since(x) {
            Some(d) => Some((d / 1_000_000_000) as u64),
            None => None,
        },
        None => None,
    }
}

/// The position of the first configured peer with this WireGuard key.
pub open spec fn configured_index(peers: Seq<ConfiguredPeer>, wg_public: [u8; 32]) -> int {
    seqs::first_where(peers, |p: ConfiguredPeer| p.wg_public == wg_public)
}

/// The position of the first peer of the state file with this key.
pub open spec fn engine_index(peers: Seq<EnginePeer>, key: Seq<char>) -> int {
    seqs::first_where(peers, |p: EnginePeer| p.public_key@ == key)
}

/// The configured peer that the device's peer is.
pub open spec fn known_as(d: DevicePeer, configured: Seq<ConfiguredPeer>) -> Option<
    ConfiguredPeer,
> {
    let k = configured_index(configured, d.wg_public);
    if k < configured.len() {
        Some(configured[k])
    } else {
        None
    }
}

/// What the state file says of the device's peer.
pub open spec fn engine_view(
    d: DevicePeer,
    configured: Seq<ConfiguredPeer>,
    engine: Option<EngineSnapshot>,
) -> Option<EnginePeer> {
    match (known_as(d, configured), engine) {
        (Some(c), Some(e)) => {
            let k = engine_index(e.peers@, c.key_b64@);
            if k < e.peers@.len() {
                Some(e.peers@[k])
            } else {
                None
            }
        },
        _ => None,
    }
}

/// The views of texts.
pub open spec fn texts(s: Seq<String>) -> Seq<Seq<char>> {
    s.map_values(|t: String| t@)
}

/// The view of an optional text.
pub open spec fn text_opt(s: Option<String>) -> Option<Seq<char>> {
    match s {
        Some(t) => Some(t@),
        None => None,
    }
}

/// Whether a row shows what the device, the configuration and the state file
/// say of a peer.
pub open spec fn shows(
    row: StatusRow,
    d: DevicePeer,
    configured: Seq<ConfiguredPeer>,
    engine: Option<EngineSnapshot>,
    now: int,
) -> bool {
    let c = known_as(d, configured);
    let e = engine_view(d, configured, engine);
    &&& row.peer@ == (if c is Some {
        c->Some_0.name@
    } else {
        "<unknown>"@
    })
    &&& row.address@ == (if c is Some {
        c->Some_0.address@
    } else {
        seq![]
    })
    &&& text_opt(row.endpoint) == text_opt(d.endpoint)
    &&& row.last_handshake_secs == seconds_since(d.last_handshake, now)
    &&& row.rx_bytes == d.rx_bytes
    &&& row.tx_bytes == d.tx_bytes
    &&& row.state@ == class(d.last_handshake, now)
    &&& match e {
        Some(p) => {
            &&& text_opt(row.endpoint_source) == Some(p.endpoint_source@)
            &&& text_opt(row.punch_state) == Some(p.punch_state@)
            &&& row.candidates == Some(p.candidates)
            &&& row.candidate_index == Some(p.candidate_index)
            &&& row.lan_endpoints == Some(p.lan_endpoints)
            &&& row.gossip_endpoints == Some(p.gossip_endpoints)
            &&& row.ddns_endpoints == Some(p.ddns_endpoints)
            &&& text_opt(row.relay_via) == text_opt(p.relay_via)
            &&& texts(row.routes@) == texts(p.routes@)
        },
        None => {
            &&& row.endpoint_source is None
            &&& row.punch_state is None
            &&& row.candidates is None
            &&& row.candidate_index is None
            &&& row.lan_endpoints is None
            &&& row.gossip_endpoints is None
            &&& row.ddns_endpoints is None
            &&& row.relay_via is None
            &&& row.routes@.len() == 0
        },
    }
}

/// What counts of a state file: nothing when its version is another one.
pub open spec fn recognized(engine: Option<EngineSnapshot>) -> Option<EngineSnapshot> {
    match engine {
        Some(e) if e.version == state::STATE_VERSION => Some(e),
        _ => None,
    }
}

fn find_configured(configured: &[ConfiguredPeer], wg_public: &[u8; 32]) -> (k: usize)
    ensures
        k == configured_index(configured@, *wg_public),
        k <= configured@.len(),
{
    let ghost hit = |p: ConfiguredPeer| p.wg_public == *wg_public;
    let mut k: usize = 0;
    while k < configured.len() && !same_key(&configured[k].wg_public, wg_public)
        invariant
            k <= configured.len(),
            hit == (|p: ConfiguredPeer| p.wg_public == *wg_public),
            forall|j: int| 0 <= j < k ==> !hit(#[trigger] configured@[j]),
        decreases configured.len() - k,
    {
        k = k + 1;
    }
    proof {
        seqs::lemma_first_where_is(configured@, hit, k as int);
    }
    k
}

fn find_engine(peers: &[EnginePeer], key: &String) -> (k: usize)
    ensures
        k == engine_index(peers@, key@),
        k <= peers@.len(),
{
    let ghost hit = |p: EnginePeer| p.public_key@ == key@;
    let mut k: usize = 0;
    while k < peers.len() && peers[k].public_key != *key
        invariant
            k <= peers.len(),
            hit == (|p: EnginePeer| p.public_key@ == key@),
            forall|j: int| 0 <= j < k ==> !hit(#[trigger] peers@[j]),
        decreases peers.len() - k,
    {
        k = k + 1;
    }
    proof {
        seqs::lemma_first_where_is(peers@, hit, k as int);
    }
    k
}

fn copy_text(s: &Option<String>) -> (t: Option<String>)
    ensures
        text_opt(t) == text_opt(*s),
        t is Some == s is Some,
{
    match s {
        Some(x) => Some(x.clone()),
        None => None,
    }
}

fn copy_texts(s: &Vec<String>) -> (t: Vec<String>)
    ensures
        texts(t@) == texts(s@),
{
    let mut t: Vec<String> = Vec::new();
    let mut i: usize = 0;
    while i < s.len()
        invariant
            i <= s.len(),
            t.len() == i,
            forall|j: int| 0 <= j < i ==> (#[trigger] t@[j])@ == s@[j]@,
        decreases s.len() - i,
    {
        t.push(s[i].clone());
        i = i + 1;
    }
    assert(texts(t@) =~= texts(s@));
    t
}

fn build_row(
    d: &DevicePeer,
    configured: &[ConfiguredPeer],
    engine: Option<&EngineSnapshot>,
    now: SystemTime,
) -> (row: StatusRow)
    ensures
        shows(
            row,
            *d,
            configured@,
            match engine {
                Some(e) => Some(*e),
                None => None,
            },
            now@,
        ),
{
    let k = find_configured(configured, &d.wg_public);
    let mut row = StatusRow {
        peer: "<unknown>".to_owned(),
        address: String::new(),
        endpoint: copy_text(&d.endpoint),
        last_handshake_secs: secs_since(d.last_handshake, now),
        rx_bytes: d.rx_bytes,
        tx_bytes: d.tx_bytes,
        state: classify(d.last_handshake, now).to_owned(),
        endpoint_source: None,
        punch_state: None,
        candidates: None,
        candidate_index: None,
        lan_endpoints: None,
        gossip_endpoints: None,
        ddns_endpoints: None,
        relay_via: None,
        routes: Vec::new(),
    };
    if k < configured.len() {
        let c = &configured[k];
        row.peer = c.name.clone();
        row.address = c.address.clone();
        if let Some(e) = engine {
            let q = find_engine(e.peers.as_slice(), &c.key_b64);
            if q < e.peers.len() {
                let p = &e.peers[q];
                row.endpoint_source = Some(p.endpoint_source.clone());
                row.punch_state = Some(p.punch_state.clone());
                row.candidates = Some(p.candidates);
                row.candidate_index = Some(p.candidate_index);
                row.lan_endpoints = Some(p.lan_endpoints);
                row.gossip_endpoints = Some(p.gossip_endpoints);
                row.ddns_endpoints = Some(p.ddns_endpoints);
                row.relay_via = copy_text(&p.relay_via);
                row.routes = copy_texts(&p.routes);
            }
        }
    }
    row
}

/// Puts together the status report: a row for every peer of the device, in the
/// device's order, with what the configuration and the daemon's state file add
/// to it. A state file of another version counts as none.
pub fn build_report(
    configured: &[ConfiguredPeer],
    device: &[DevicePeer],
    engine: Option<&EngineSnapshot>,
    state_file: &str,
    now: SystemTime,
) -> (report: StatusReport)
    ensures
        ({
            let e = recognized(
                match engine {
                    Some(s) => Some(*s),
                    None => None,
                },
            );
            &&& report.daemon is Some <==> e is Some
            &&& report.daemon matches Some(info) ==> {
                let ago = secs_ago(e->Some_0.updated_unix, state::seconds(now@) as u64);
                &&& info.updated_secs_ago == ago
                &&& info.running == (ago <= DAEMON_FRESH_SECS)
                &&& info.state_file@ == state_file@
            }
            &&& report.peers@.len() == device@.len()
            &&& forall|i: int|
                0 <= i < device@.len() ==> shows(
                    #[trigger] report.peers@[i],
                    device@[i],
                    configured@,
                    e,
                    now@,
                )
        }),
        forall|i: int|
            0 <= i < device@.len() ==> (#[trigger] report.peers@[i]).state@ == (
            match device@[i].last_handshake {
                None => "no-handshake"@,
                Some(t) => if 0 <= now@ - t@ < 180_000_000_000 {
                    "connected"@
                } else {
                    "stale"@
                },
            }),
{
    let now_unix = unix_secs(now);
    let recognized_engine: Option<&EngineSnapshot> = match engine {
        Some(s) => if s.version == state::STATE_VERSION {
            Some(s)
        } else {
            None
        },
        None => None,
    };
    let daemon = match recognized_engine {
        Some(s) => {
            let (running, updated_secs_ago) = daemon_freshness(s.updated_unix, now_unix);
            Some(DaemonInfo { running, updated_secs_ago, state_file: state_file.to_owned() })
        },
        None => None,
    };
    let ghost e = match recognized_engine {
        Some(s) => Some(*s),
        None => None,
    };
    let mut peers: Vec<StatusRow> = Vec::new();
    let mut i: usize = 0;
    while i < device.len()
        invariant
            i <= device.len(),
            peers.len() == i,
            e == match recognized_engine {
                Some(s) => Some(*s),
                None => None,
            },
            forall|j: int|
                0 <= j < i ==> shows(#[trigger] peers@[j], device@[j], configured@, e, now@),
        decreases device.len() - i,
    {
        peers.push(build_row(&device[i], configured, recognized_engine, now));
        i = i + 1;
    }
    StatusReport { daemon, peers }
}

/// What status calls connected, the state machine treats as connected too, and
/// for handshakes that are not in the future the two agree.
pub proof fn law_status_agrees_with_fsm(last: Option<SystemTime>, now: int)
    ensures
        class(last, now) == "connected"@ ==> fsm::fresh(last, now),
        (last is Some && last->Some_0@ <= now) ==> (class(last, now) == "connected"@
            <==> fsm::fresh(last, now)),
{
    reveal_strlit("connected");
    reveal_strlit("stale");
    reveal_strlit("no-handshake");
    assert("connected"@.len() != "stale"@.len());
    assert("connected"@.len() != "no-handshake"@.len());
}

/// A row tells the state of the connection by the device's last handshake with
/// that peer: less than 180 seconds old, older or in the future, or none at all;
/// and how many whole seconds ago it was.
pub proof fn law_row_tells_the_handshake(
    row: StatusRow,
    d: DevicePeer,
    configured: Seq<ConfiguredPeer>,
    engine: Option<EngineSnapshot>,
    now: int,
)
    requires
        shows(row, d, configured, engine, now),
        d.last_handshake matches Some(t) ==> now - t@ <= u64::MAX,
    ensures
        d.last_handshake is None ==> row.state@ == "no-handshake"@ && row.last_handshake_secs
            is None,
        d.last_handshake matches Some(t) ==> {
            &&& 0 <= now - t@ < 180_000_000_000 ==> row.state@ == "connected"@
            &&& !(0 <= now - t@ < 180_000_000_000) ==> row.state@ == "stale"@
            &&& now < t@ ==> row.last_handshake_secs is None
            &&& t@ <= now ==> row.last_handshake_secs is Some && row.last_handshake_secs->Some_0
                * 1_000_000_000 <= now - t@ < (row.last_handshake_secs->Some_0 + 1)
                * 1_000_000_000
        },
{
}

/// A row tells what the device holds of its peer, under the name and the address
/// of the first configured peer with that key; a peer that is not configured is
/// unknown.
pub proof fn law_row_tells_the_peer(
    row: StatusRow,
    d: DevicePeer,
    configured: Seq<ConfiguredPeer>,
    engine: Option<EngineSnapshot>,
    now: int,
    k: int,
)
    requires
        shows(row, d, configured, engine, now),
        0 <= k <= configured.len(),
        forall|j: int| 0 <= j < k ==> (#[trigger] configured[j]).wg_public != d.wg_public,
        k < configured.len() ==> configured[k].wg_public == d.wg_public,
    ensures
        row.rx_bytes == d.rx_bytes,
        row.tx_bytes == d.tx_bytes,
        row.endpoint is Some <==> d.endpoint is Some,
        d.endpoint is Some ==> row.endpoint->Some_0@ == d.endpoint->Some_0@,
        k < configured.len() ==> row.peer@ == configured[k].name@ && row.address@
            == configured[k].address@,
        k == configured.len() ==> row.peer@ == "<unknown>"@ && row.address@.len() == 0,
{
    let hit = |p: ConfiguredPeer| p.wg_public == d.wg_public;
    assert forall|j: int| 0 <= j < k implies !hit(#[trigger] configured[j]) by {}
    seqs::lemma_first_where_is(configured, hit, k);
}

/// A row tells what the daemon is doing about a configured peer that the state
/// file knows, and nothing of that for any other.
pub proof fn law_row_tells_what_the_daemon_does(
    row: StatusRow,
    d: DevicePeer,
    configured: Seq<ConfiguredPeer>,
    engine: Option<EngineSnapshot>,
    now: int,
    k: int,
    q: int,
)
    requires
        shows(row, d, configured, engine, now),
        0 <= k < configured.len(),
        forall|j: int| 0 <= j < k ==> (#[trigger] configured[j]).wg_public != d.wg_public,
        configured[k].wg_public == d.wg_public,
        engine is Some,
        0 <= q <= engine->Some_0.peers@.len(),
        forall|j: int|
            0 <= j < q ==> (#[trigger] engine->Some_0.peers@[j]).public_key@
                != configured[k].key_b64@,
        q < engine->Some_0.peers@.len() ==> engine->Some_0.peers@[q].public_key@
            == configured[k].key_b64@,
    ensures
        q < engine->Some_0.peers@.len() ==> {
            let p = engine->Some_0.peers@[q];
            &&& row.endpoint_source is Some && row.endpoint_source->Some_0@ == p.endpoint_source@
            &&& row.punch_state is Some && row.punch_state->Some_0@ == p.punch_state@
            &&& row.candidates == Some(p.candidates)
            &&& row.candidate_index == Some(p.candidate_index)
            &&& row.lan_endpoints == Some(p.lan_endpoints)
            &&& row.gossip_endpoints == Some(p.gossip_endpoints)
            &&& row.ddns_endpoints == Some(p.ddns_endpoints)
            &&& row.relay_via is Some <==> p.relay_via is Some
            &&& p.relay_via is Some ==> row.relay_via->Some_0@ == p.relay_via->Some_0@
            &&& row.routes@.len() == p.routes@.len()
            &&& forall|i: int|
                0 <= i < p.routes@.len() ==> (#[trigger] row.routes@[i])@ == p.routes@[i]@
        },
        q == engine->Some_0.peers@.len() ==> row.punch_state is None && row.endpoint_source is None
            && row.relay_via is None && row.candidates is None && row.routes@.len() == 0,
{
    let hit = |p: ConfiguredPeer| p.wg_public == d.wg_public;
    assert forall|j: int| 0 <= j < k implies !hit(#[trigger] configured[j]) by {}
    seqs::lemma_first_where_is(configured, hit, k);
    let e = engine->Some_0;
    let same = |p: EnginePeer| p.public_key@ == configured[k].key_b64@;
    assert forall|j: int| 0 <= j < q implies !same(#[trigger] e.peers@[j]) by {}
    seqs::lemma_first_where_is(e.peers@, same, q);
    if q < e.peers@.len() {
        let p = e.peers@[q];
        assert(texts(row.routes@).len() == texts(p.routes@).len());
        assert forall|i: int| 0 <= i < p.routes@.len() implies (#[trigger] row.routes@[i])@
            == p.routes@[i]@ by {
            assert(texts(row.routes@)[i] == texts(p.routes@)[i]);
        }
    }
}

/// Without a state file, or with one of another version than 5, nothing is known
/// of the daemon.
pub proof fn law_other_versions_are_ignored(engine: Option<EngineSnapshot>)
    ensures
        engine is None ==> recognized(engine) is None,
        engine is Some && engine->Some_0.version != 5 ==> recognized(engine) is None,
        engine is Some && engine->Some_0.version == 5 ==> recognized(engine) == engine,
{
}

/// How long ago the state was written never exceeds the time that has passed,
/// and is nothing when the clock was set back.
pub proof fn law_age_of_the_state(updated_unix: u64, now_unix: u64)
    ensures
        updated_unix <= now_unix ==> updated_unix + secs_ago(updated_unix, now_unix) == now_unix,
        updated_unix > now_unix ==> secs_ago(updated_unix, now_unix) == 0,
{
}

} // verus!
