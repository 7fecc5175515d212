//! The relay: for nodes that cannot reach each other directly.
//!
//! It authenticates control frames, gives every pair of nodes a UDP port of
//! its own, and passes what arrives there from one side on to the other. It
//! does not look into what it passes on.

use crate::addr::{SocketAddr, SocketAddrV6};
use crate::candidates::{self, normalize};
use crate::keys::{contains_key, same_key};
use crate::relay::{self, RelayFrame, RelayKind, SessionKey};
use crate::seqs;
use crate::table::{self, Table};
use crate::time::Instant;
use vstd::prelude::*;

verus! {

/// How long a session lives without being renewed, in seconds.
pub const SESSION_TTL: u64 = 180;

/// How often a client renews its session, in nanoseconds: 30 s.
pub const REGISTER_INTERVAL: u64 = 30_000_000_000;

/// How often expired sessions are cleared, in nanoseconds: 30 s.
pub const PRUNE_INTERVAL: u64 = 30_000_000_000;

/// How many sessions there can be.
pub const MAX_SESSIONS: usize = 256;

/// How far the time in a control frame may be off, in seconds.
pub const SEQ_SKEW_TOLERANCE_SECS: u64 = 300;

/// How many packets a second a session passes on.
pub const MAX_PACKETS_PER_SEC: u32 = 2_000;

/// The size of the buffer that packets are read into. A packet that fills it
/// may have been cut off.
pub const FORWARD_BUF: usize = 2048;

/// The window over which packets are counted, in nanoseconds: 1 s.
pub const PACKET_WINDOW: u64 = 1_000_000_000;

/// Who may use this node as a relay.
#[derive(Debug)]
pub enum RelayPolicy {
    /// Every member of the network.
    AnyMember,
    /// The nodes with these keys.
    Allowlist(Vec<[u8; 32]>),
}

/// Where the two sides of a session are, in the order of the session's key.
pub type SessionAddrs = [Option<SocketAddrV6>; 2];

/// A session.
#[derive(Clone, Copy, Debug)]
pub struct Session {
    port: u16,
    addrs: SessionAddrs,
    last_seen_unix: u64,
}

/// What a [`Session`] holds.
pub struct SessionModel {
    /// The session's UDP port.
    pub port: u16,
    /// Where the two sides are.
    pub addrs: Seq<Option<SocketAddrV6>>,
    /// When the session was last renewed, in Unix seconds.
    pub last_seen_unix: u64,
}

impl View for Session {
    type V = SessionModel;

    closed spec fn view(&self) -> SessionModel {
        SessionModel {
            port: self.port,
            addrs: self.addrs@,
            last_seen_unix: self.last_seen_unix,
        }
    }
}

/// The sessions of a relay.
pub type Sessions = Map<Seq<[u8; 32]>, SessionModel>;

/// The table of sessions.
#[derive(Debug)]
pub struct RelayTable {
    sessions: Table<SessionKey, Session>,
}

impl View for RelayTable {
    type V = Sessions;

    closed spec fn view(&self) -> Sessions {
        self.sessions@
    }
}

impl RelayPolicy {
    /// Whether the node with this key may open a session.
    pub open spec fn admits(self, key: [u8; 32]) -> bool {
        match self {
            RelayPolicy::AnyMember => true,
            RelayPolicy::Allowlist(list) => list@.contains(key),
        }
    }

    /// The policy that a configured list of keys stands for: none listed means
    /// that every member may use the relay.
    pub fn from_allowlist(allow: Vec<[u8; 32]>) -> (p: Self)
        ensures
            p is AnyMember <==> allow@.len() == 0,
            forall|key: [u8; 32]| #[trigger]
                p.admits(key) == (allow@.len() == 0 || allow@.contains(key)),
    {
        if allow.is_empty() {
            RelayPolicy::AnyMember
        } else {
            RelayPolicy::Allowlist(allow)
        }
    }

    /// Tells whether the node with this key may open a session. Each side of a
    /// session is asked for separately; with only one side let in, the session
    /// stays half open and passes nothing on.
    pub fn allows(&self, key: &[u8; 32]) -> (yes: bool)
        ensures
            yes == self.admits(*key),
    {
        match self {
            RelayPolicy::AnyMember => true,
            RelayPolicy::Allowlist(list) => contains_key(list.as_slice(), key),
        }
    }
}

/// A session just opened, with neither side known.
pub open spec fn fresh_session(port: u16, now_unix: u64) -> SessionModel {
    SessionModel { port, addrs: seq![None, None], last_seen_unix: now_unix }
}

/// Whether a session has gone without renewal for too long.
pub open spec fn expired(s: SessionModel, now_unix: u64) -> bool {
    now_unix - s.last_seen_unix > SESSION_TTL
}

/// Whether a session has been renewed in time.
pub open spec fn alive(s: SessionModel, now_unix: u64) -> bool {
    !expired(s, now_unix)
}

impl Session {
    fn is_alive(&self, now_unix: u64) -> (yes: bool)
        ensures
            yes == alive(self@, now_unix),
    {
        now_unix <= self.last_seen_unix || now_unix - self.last_seen_unix <= SESSION_TTL
    }
}

/// The sessions that have not expired.
pub open spec fn live(m: Sessions, now_unix: u64) -> Sessions {
    m.restrict(Set::new(|k: Seq<[u8; 32]>| m.dom().contains(k) && !expired(m[k], now_unix)))
}

/// The sessions after the side of `key` was seen at `addr`.
pub open spec fn seen_at(
    m: Sessions,
    key: Seq<[u8; 32]>,
    side: int,
    addr: SocketAddrV6,
    now_unix: u64,
) -> Sessions {
    if m.dom().contains(key) {
        m.insert(
            key,
            SessionModel {
                port: m[key].port,
                addrs: m[key].addrs.update(side, Some(addr)),
                last_seen_unix: now_unix,
            },
        )
    } else {
        m
    }
}

/// Whether the keys in `list` are exactly those of the expired sessions of
/// `m`, each once.
pub open spec fn lists_expired(list: Seq<SessionKey>, m: Sessions, now_unix: u64) -> bool {
    &&& list.no_duplicates()
    &&& forall|i: int|
        0 <= i < list.len() ==> m.dom().contains((#[trigger] list[i])@) && expired(
            m[list[i]@],
            now_unix,
        )
    &&& forall|k: Seq<[u8; 32]>| #[trigger]
        m.dom().contains(k) && expired(m[k], now_unix) ==> exists|i: int|
            0 <= i < list.len() && (#[trigger] list[i])@ == k
}

impl RelayTable {
    /// Whether the table is sound: no session twice, each with two sides, no
    /// more of them than allowed.
    pub closed spec fn wf(&self) -> bool {
        &&& self.sessions.wf()
        &&& self@.dom().finite()
        &&& self@.dom().len() <= MAX_SESSIONS
        &&& forall|k: Seq<[u8; 32]>| #[trigger]
            self@.dom().contains(k) ==> self@[k].addrs.len() == 2
    }

    /// A table without sessions.
    pub fn new() -> (t: Self)
        ensures
            t.wf(),
            t@ == Sessions::empty(),
    {
        RelayTable { sessions: Table::new() }
    }

    /// How many sessions there are.
    pub fn len(&self) -> (n: usize)
        requires
            self.wf(),
        ensures
            n == self@.dom().len(),
            n <= MAX_SESSIONS,
    {
        self.sessions.len()
    }

    /// Whether there is no session.
    pub fn is_empty(&self) -> (empty: bool)
        ensures
            empty == (self@ == Sessions::empty()),
    {
        self.sessions.is_empty()
    }

    /// Whether there is this session.
    pub fn contains(&self, key: &SessionKey) -> (found: bool)
        requires
            self.wf(),
        ensures
            found == self@.dom().contains(key@),
    {
        self.sessions.get(key).is_some()
    }

    /// Opens a session, unless the table is full.
    pub fn insert(&mut self, key: SessionKey, port: u16, now_unix: u64) -> (opened: bool)
        requires
            old(self).wf(),
        ensures
            final(self).wf(),
            opened == (old(self)@.dom().len() < MAX_SESSIONS),
            final(self)@ == if opened {
                old(self)@.insert(key@, fresh_session(port, now_unix))
            } else {
                old(self)@
            },
    {
        if self.sessions.len() >= MAX_SESSIONS {
            return false;
        }
        let session = Session { port, addrs: [None, None], last_seen_unix: now_unix };
        assert(session@.addrs =~= fresh_session(port, now_unix).addrs);
        self.sessions.insert(key, session);
        true
    }

    /// Notes where one side of a session is, and renews the session; tells
    /// whether that side moved.
    pub fn touch_addr(
        &mut self,
        key: &SessionKey,
        side: usize,
        addr: SocketAddrV6,
        now_unix: u64,
    ) -> (moved: bool)
        requires
            old(self).wf(),
        ensures
            final(self).wf(),
            final(self)@ == seen_at(
                old(self)@,
                key@,
                if side == 0 {
                    0
                } else {
                    1
                },
                addr,
                now_unix,
            ),
            moved == (old(self)@.dom().contains(key@) && old(self)@[key@].addrs[if side == 0 {
                0
            } else {
                1
            }] != Some(addr)),
    {
        let slot: usize = if side == 0 {
            0
        } else {
            1
        };
        match self.sessions.position(key) {
            None => false,
            Some(i) => {
                proof {
                    table::lemma_as_map_entry(self.sessions.listed(), i as int);
                }
                let mut session: Session = *self.sessions.value_at(i);
                let ghost before = session@;
                let moved = session.addrs[slot] != Some(addr);
                session.last_seen_unix = now_unix;
                session.addrs[slot] = Some(addr);
                assert(session@.addrs =~= before.addrs.update(slot as int, Some(addr)));
                self.sessions.set_at(i, session);
                assert(self@.dom() =~= old(self)@.dom());
                moved
            },
        }
    }

    /// Where the two sides of a session are.
    pub fn addrs(&self, key: &SessionKey) -> (a: SessionAddrs)
        requires
            self.wf(),
        ensures
            a@ == if self@.dom().contains(key@) {
                self@[key@].addrs
            } else {
                seq![None, None]
            },
    {
        match self.sessions.get(key) {
            Some(s) => s.addrs,
            None => {
                let a: SessionAddrs = [None, None];
                assert(a@ =~= seq![None, None]);
                a
            },
        }
    }

    /// The UDP port of a session.
    pub fn port(&self, key: &SessionKey) -> (p: Option<u16>)
        requires
            self.wf(),
        ensures
            p == if self@.dom().contains(key@) {
                Some(self@[key@].port)
            } else {
                None
            },
    {
        match self.sessions.get(key) {
            Some(s) => Some(s.port),
            None => None,
        }
    }

    /// Closes a session.
    pub fn remove(&mut self, key: &SessionKey)
        requires
            old(self).wf(),
        ensures
            final(self).wf(),
            final(self)@ == old(self)@.remove(key@),
    {
        self.sessions.remove(key);
    }

    /// Closes the sessions that have expired, and tells which.
    pub fn prune(&mut self, now_unix: u64) -> (closed: Vec<SessionKey>)
        requires
            old(self).wf(),
        ensures
            final(self).wf(),
            final(self)@ == live(old(self)@, now_unix),
            lists_expired(closed@, old(self)@, now_unix),
    {
        let ghost m = self@;
        let ghost all = self.sessions.listed();
        let ghost stale = |e: (Seq<[u8; 32]>, SessionModel)| expired(e.1, now_unix);
        let mut closed: Vec<SessionKey> = Vec::new();
        let n = self.sessions.len();
        let mut i: usize = 0;
        proof {
            reveal(Seq::filter);
            assert(all.take(0).filter(stale) =~= seq![]);
        }
        while i < n
            invariant
                i <= n,
                n == all.len(),
                all == self.sessions.listed(),
                stale == (|e: (Seq<[u8; 32]>, SessionModel)| expired(e.1, now_unix)),
                closed.len() == all.take(i as int).filter(stale).len(),
                forall|a: int|
                    0 <= a < closed.len() ==> (#[trigger] closed@[a])@ == all.take(
                        i as int,
                    ).filter(stale)[a].0,
            decreases n - i,
        {
            let ghost e = all[i as int];
            proof {
                assert(all.take(i + 1) =~= all.take(i as int).push(e));
                seqs::lemma_filter_push(all.take(i as int), e, stale);
            }
            if !self.sessions.value_at(i).is_alive(now_unix) {
                closed.push(*self.sessions.key_at(i));
            }
            i = i + 1;
        }
        proof {
            assert(all.take(i as int) =~= all);
            lemma_lists_expired(closed@, all, now_unix);
        }
        let ghost kept = |e: (Seq<[u8; 32]>, SessionModel)| alive(e.1, now_unix);
        let keep = |_k: &SessionKey, s: &Session| -> (b: bool)
            ensures
                b == alive(s@, now_unix),
        {
            s.is_alive(now_unix)
        };
        self.sessions.retain(keep, Ghost(kept));
        proof {
            table::lemma_as_map_filter(all, kept);
            assert(self@.dom() =~= live(m, now_unix).dom());
            assert(self@ =~= live(m, now_unix));
            vstd::set_lib::lemma_len_subset(self@.dom(), m.dom());
        }
        closed
    }
}

proof fn lemma_lists_expired(
    list: Seq<SessionKey>,
    all: Seq<(Seq<[u8; 32]>, SessionModel)>,
    now_unix: u64,
)
    requires
        table::distinct_keys(all),
        ({
            let gone = all.filter(|e: (Seq<[u8; 32]>, SessionModel)| expired(e.1, now_unix));
            &&& list.len() == gone.len()
            &&& forall|a: int| 0 <= a < list.len() ==> (#[trigger] list[a])@ == gone[a].0
        }),
    ensures
        lists_expired(list, table::as_map(all), now_unix),
{
    let stale = |e: (Seq<[u8; 32]>, SessionModel)| expired(e.1, now_unix);
    let gone = all.filter(stale);
    let m = table::as_map(all);
    let g = table::as_map(gone);
    table::lemma_as_map_filter(all, stale);
    assert forall|a: int, b: int|
        0 <= a < list.len() && 0 <= b < list.len() && a != b implies list[a] != list[b] by {
        if a < b {
            assert(gone[a].0 != gone[b].0);
        } else {
            assert(gone[b].0 != gone[a].0);
        }
        assert(list[a]@ == gone[a].0 && list[b]@ == gone[b].0);
    }
    assert forall|a: int| 0 <= a < list.len() implies m.dom().contains((#[trigger] list[a])@)
        && expired(m[list[a]@], now_unix) by {
        table::lemma_as_map_entry(gone, a);
        assert(g.dom().contains(gone[a].0));
    }
    assert forall|k: Seq<[u8; 32]>| #[trigger]
        m.dom().contains(k) && expired(m[k], now_unix) implies exists|a: int|
        0 <= a < list.len() && (#[trigger] list[a])@ == k by {
        assert(g.dom().contains(k));
        let a = table::key_index(gone, k);
        assert(list[a]@ == k);
    }
}

/// A sound table holds no more sessions than allowed, each with two sides.
pub proof fn law_sessions_bounded(t: &RelayTable)
    requires
        t.wf(),
    ensures
        t@.dom().finite(),
        t@.dom().len() <= MAX_SESSIONS,
        forall|k: Seq<[u8; 32]>| #[trigger] t@.dom().contains(k) ==> t@[k].addrs.len() == 2,
{
}

/// Closing a session twice is closing it once, and closes no other.
pub proof fn law_remove_idempotent(m: Sessions, key: Seq<[u8; 32]>, other: Seq<[u8; 32]>)
    ensures
        m.remove(key).remove(key) == m.remove(key),
        other != key ==> m.remove(key).dom().contains(other) == m.dom().contains(other),
{
    assert(m.remove(key).remove(key) =~= m.remove(key));
}

/// A limit on the packets of a session, over windows of fixed length.
#[derive(Debug)]
pub struct PacketLimiter {
    window_start: Instant,
    count: u32,
    dropped: u32,
}

/// What a [`PacketLimiter`] holds.
pub struct LimiterModel {
    /// When the window began, in nanoseconds.
    pub window_start: int,
    /// The packets let through in the window.
    pub count: int,
    /// The packets refused in the window.
    pub dropped: int,
}

impl View for PacketLimiter {
    type V = LimiterModel;

    closed spec fn view(&self) -> LimiterModel {
        LimiterModel {
            window_start: self.window_start@,
            count: self.count as int,
            dropped: self.dropped as int,
        }
    }
}

impl LimiterModel {
    /// Whether the counts are within their bounds.
    pub open spec fn wf(self) -> bool {
        0 <= self.count <= MAX_PACKETS_PER_SEC && 0 <= self.dropped <= u32::MAX
    }

    /// The limiter in the window that `now` belongs to.
    pub open spec fn rolled(self, now: int) -> LimiterModel {
        if now - self.window_start >= PACKET_WINDOW {
            LimiterModel { window_start: now, count: 0, dropped: 0 }
        } else {
            self
        }
    }

    /// Whether a packet at `now` is let through.
    pub open spec fn lets(self, now: int) -> bool {
        self.rolled(now).count < MAX_PACKETS_PER_SEC
    }

    /// The limiter after a packet at `now`.
    pub open spec fn after(self, now: int) -> LimiterModel {
        let r = self.rolled(now);
        if self.lets(now) {
            LimiterModel { count: r.count + 1, ..r }
        } else if r.dropped == u32::MAX {
            r
        } else {
            LimiterModel { dropped: r.dropped + 1, ..r }
        }
    }
}

impl PacketLimiter {
    /// A limiter whose first window begins now.
    pub fn new(now: Instant) -> (l: Self)
        ensures
            l@ == (LimiterModel { window_start: now@, count: 0, dropped: 0 }),
            l@.wf(),
    {
        PacketLimiter { window_start: now, count: 0, dropped: 0 }
    }

    /// How many packets the current window has refused.
    pub fn dropped(&self) -> (n: u32)
        ensures
            n == self@.dropped,
    {
        self.dropped
    }

    /// Tells whether to let a packet through, and counts it.
    pub fn allow(&mut self, now: Instant) -> (yes: bool)
        requires
            old(self)@.wf(),
        ensures
            yes == old(self)@.lets(now@),
            final(self)@ == old(self)@.after(now@),
            final(self)@.wf(),
    {
        if now.nanos_since(self.window_start) >= PACKET_WINDOW {
            self.window_start = now;
            self.count = 0;
            self.dropped = 0;
        }
        if self.count >= MAX_PACKETS_PER_SEC {
            self.dropped = self.dropped.saturating_add(1);
            return false;
        }
        self.count = self.count + 1;
        true
    }
}

/// How many of the packets that come at `times` are let through.
pub open spec fn let_through(l: LimiterModel, times: Seq<int>) -> int
    decreases times.len(),
{
    if times.len() == 0 {
        0
    } else {
        (if l.lets(times[0]) {
            1int
        } else {
            0
        }) + let_through(l.after(times[0]), times.skip(1))
    }
}

/// In one window no more packets than allowed are let through, however many
/// come and in whatever order their times are read.
pub proof fn law_window_capped(l: LimiterModel, times: Seq<int>)
    requires
        l.wf(),
        forall|i: int| 0 <= i < times.len() ==> #[trigger] times[i] - l.window_start < PACKET_WINDOW,
    ensures
        let_through(l, times) <= MAX_PACKETS_PER_SEC - l.count,
    decreases times.len(),
{
    if times.len() > 0 {
        let rest = times.skip(1);
        let next = l.after(times[0]);
        assert forall|i: int| 0 <= i < rest.len() implies #[trigger] rest[i] - next.window_start
            < PACKET_WINDOW by {
            assert(rest[i] == times[i + 1]);
        }
        law_window_capped(next, rest);
    }
}

/// A new window lets packets through again.
pub proof fn law_window_resets(l: LimiterModel, now: int)
    requires
        l.wf(),
        now - l.window_start >= PACKET_WINDOW,
    ensures
        l.lets(now),
{
}

/// Where a packet from `from` goes: to the other side, when both are known.
pub open spec fn other_side(addrs: Seq<Option<SocketAddrV6>>, from: SocketAddrV6) -> Option<
    SocketAddrV6,
> {
    if addrs[0] == Some(from) {
        addrs[1]
    } else if addrs[1] == Some(from) {
        addrs[0]
    } else {
        None
    }
}

/// Where a packet of a session is sent on to, apart from the limit: control
/// frames, packets that may have been cut off and packets from strangers go
/// nowhere.
pub open spec fn destination(
    addrs: Seq<Option<SocketAddrV6>>,
    src: SocketAddr,
    is_control_frame: bool,
    len: usize,
) -> Option<SocketAddrV6> {
    match src {
        SocketAddr::V4 { .. } => None,
        SocketAddr::V6(from) => if is_control_frame || len == FORWARD_BUF {
            None
        } else {
            other_side(addrs, candidates::normal(from))
        },
    }
}

/// Decides where a packet that arrived at a session's port goes. Only a packet
/// that has somewhere to go counts against the limit.
pub fn forward_to(
    addrs: &SessionAddrs,
    limiter: &mut PacketLimiter,
    src: SocketAddr,
    is_control_frame: bool,
    len: usize,
    now: Instant,
) -> (to: Option<SocketAddrV6>)
    requires
        old(limiter)@.wf(),
    ensures
        final(limiter)@.wf(),
        final(limiter)@ == match destination(addrs@, src, is_control_frame, len) {
            Some(_) => old(limiter)@.after(now@),
            None => old(limiter)@,
        },
        to == match destination(addrs@, src, is_control_frame, len) {
            Some(dst) if old(limiter)@.lets(now@) => Some(dst),
            _ => None,
        },
{
    let from = match src {
        SocketAddr::V4 { .. } => {
            return None;
        },
        SocketAddr::V6(v6) => normalize(v6),
    };
    if is_control_frame || len == FORWARD_BUF {
        return None;
    }
    let dst = if addrs[0] == Some(from) {
        addrs[1]
    } else if addrs[1] == Some(from) {
        addrs[0]
    } else {
        None
    };
    match dst {
        Some(d) => if limiter.allow(now) {
            Some(d)
        } else {
            None
        },
        None => None,
    }
}

/// A half-open session passes nothing on.
pub proof fn law_half_open_forwards_nothing(
    addrs: Seq<Option<SocketAddrV6>>,
    src: SocketAddr,
    is_control_frame: bool,
    len: usize,
)
    requires
        addrs.len() == 2,
        addrs[0] is None || addrs[1] is None,
    ensures
        destination(addrs, src, is_control_frame, len) is None,
{
}

/// With both sides known and apart, each side's packets go to the other.
pub proof fn law_forwards_both_ways(
    a: SocketAddrV6,
    b: SocketAddrV6,
    len: usize,
)
    requires
        a == candidates::normal(a),
        b == candidates::normal(b),
        len != FORWARD_BUF,
    ensures
        destination(seq![Some(a), Some(b)], SocketAddr::V6(a), false, len) == Some(b),
        destination(seq![Some(a), Some(b)], SocketAddr::V6(b), false, len) == Some(a),
{
}

/// What comes from neither side goes nowhere, and a control frame never does.
pub proof fn law_strangers_and_control_frames_dropped(
    addrs: Seq<Option<SocketAddrV6>>,
    src: SocketAddrV6,
    len: usize,
)
    ensures
        destination(addrs, SocketAddr::V6(src), true, len) is None,
        addrs[0] != Some(candidates::normal(src)) && addrs[1] != Some(candidates::normal(src))
            ==> destination(addrs, SocketAddr::V6(src), false, len) is None,
{
}

/// A request for a session that is not there yet: it needs a socket.
#[derive(Clone, Copy, Debug)]
pub struct Registration {
    /// The session.
    pub key: SessionKey,
    /// The side that registers.
    pub side: usize,
    /// Where that side is.
    pub data_addr: SocketAddrV6,
    /// The frame that asked.
    pub frame: RelayFrame,
    /// When it asked, in Unix seconds.
    pub now_unix: u64,
}

/// A registration that succeeded.
#[derive(Clone, Copy, Debug)]
pub struct Acknowledgement {
    /// The session.
    pub key: SessionKey,
    /// Where its sides are now, for the task that passes its packets on.
    pub addrs: SessionAddrs,
    /// The frame to send back.
    pub frame: RelayFrame,
}

/// What to do after a control frame.
#[derive(Clone, Copy, Debug)]
pub enum ControlStep {
    /// Nothing.
    Ignore,
    /// Bind a socket and hand its port to [`RelayTable::open`].
    Bind(Registration),
    /// Send back an acknowledgement.
    Acknowledge(Acknowledgement),
}

/// What came of a control frame.
#[derive(Debug)]
pub struct ControlOutcome {
    /// The sessions that were closed: their sockets can go.
    pub closed: Vec<SessionKey>,
    /// What to do next.
    pub step: ControlStep,
}

/// How far two times are apart.
pub open spec fn apart(a: u64, b: u64) -> int {
    if a < b {
        b - a
    } else {
        a - b
    }
}

/// Tells whether the time in a message is close enough to this node's clock.
pub fn within_skew(seq: u64, now_unix: u64, tolerance: u64) -> (ok: bool)
    ensures
        ok == (apart(seq, now_unix) <= tolerance),
{
    if seq < now_unix {
        now_unix - seq <= tolerance
    } else {
        seq - now_unix <= tolerance
    }
}

/// Whether a frame is heeded: it is recent, and its sender may use the relay.
pub open spec fn heeded(policy: RelayPolicy, frame: RelayFrame, now_unix: u64) -> bool {
    apart(frame.seq, now_unix) <= SEQ_SKEW_TOLERANCE_SECS && policy.admits(frame.self_key)
}

/// Where the sender of a frame receives packets.
pub open spec fn data_addr(src: SocketAddrV6, frame: RelayFrame) -> SocketAddrV6 {
    SocketAddrV6 { ip: src.ip, port: frame.port, flowinfo: 0, scope_id: 0 }
}

/// The sessions after the sender of `frame` registered from `src`.
pub open spec fn renewed(
    m: Sessions,
    frame: RelayFrame,
    src: SocketAddrV6,
    now_unix: u64,
) -> Sessions {
    seen_at(
        m,
        frame.key(),
        relay::session_side(frame.self_key, frame.key()),
        data_addr(src, frame),
        now_unix,
    )
}

/// Whether `a` acknowledges `frame` for the session as it stands in `m`.
pub open spec fn acknowledges(
    a: Acknowledgement,
    m: Sessions,
    frame: RelayFrame,
    now_unix: u64,
) -> bool {
    &&& a.key@ == frame.key()
    &&& m.dom().contains(frame.key())
    &&& a.addrs@ == m[frame.key()].addrs
    &&& a.frame == (RelayFrame {
        kind: RelayKind::RegisterAck,
        port: m[frame.key()].port,
        seq: now_unix,
        self_key: frame.self_key,
        peer_key: frame.peer_key,
    })
}

/// Whether `r` is the request of `frame`, sent from `src`.
pub open spec fn requests(
    r: Registration,
    frame: RelayFrame,
    src: SocketAddrV6,
    now_unix: u64,
) -> bool {
    &&& r.key@ == frame.key()
    &&& r.side == relay::session_side(frame.self_key, frame.key())
    &&& r.data_addr == data_addr(src, frame)
    &&& r.frame == frame
    &&& r.now_unix == now_unix
}

/// Whether a frame from `src` is one that the relay acts on at all.
pub open spec fn acted_on(
    policy: RelayPolicy,
    frame: Option<RelayFrame>,
    src: SocketAddr,
    now_unix: u64,
) -> bool {
    match (frame, src) {
        (Some(f), SocketAddr::V6(_)) => heeded(policy, f, now_unix) && match f.kind {
            RelayKind::Register => f.port != 0,
            RelayKind::Unregister => true,
            RelayKind::RegisterAck => false,
        },
        _ => false,
    }
}

impl RelayTable {
    /// Notes where the sender of a frame is and makes the acknowledgement.
    fn renew(&mut self, reg: Registration) -> (ack: Acknowledgement)
        requires
            old(self).wf(),
            old(self)@.dom().contains(reg.key@),
            reg.key@ == reg.frame.key(),
            reg.side == relay::session_side(reg.frame.self_key, reg.key@),
        ensures
            final(self).wf(),
            final(self)@ == seen_at(
                old(self)@,
                reg.key@,
                reg.side as int,
                reg.data_addr,
                reg.now_unix,
            ),
            acknowledges(ack, final(self)@, reg.frame, reg.now_unix),
    {
        self.touch_addr(&reg.key, reg.side, reg.data_addr, reg.now_unix);
        let port = match self.port(&reg.key) {
            Some(p) => p,
            None => 0,
        };
        Acknowledgement {
            key: reg.key,
            addrs: self.addrs(&reg.key),
            frame: RelayFrame {
                kind: RelayKind::RegisterAck,
                port,
                seq: reg.now_unix,
                self_key: reg.frame.self_key,
                peer_key: reg.frame.peer_key,
            },
        }
    }

    /// Handles what arrived at the control socket: `frame` is the frame, or
    /// `None` when the datagram is no authentic frame.
    ///
    /// Frames that are too old or too new, that the policy does not allow, that
    /// carry no port or are acknowledgements are silently dropped, and so is
    /// everything that came over IPv4.
    pub fn control(
        &mut self,
        policy: &RelayPolicy,
        frame: Option<RelayFrame>,
        src: SocketAddr,
        now_unix: u64,
    ) -> (out: ControlOutcome)
        requires
            old(self).wf(),
        ensures
            final(self).wf(),
            !acted_on(*policy, frame, src, now_unix) ==> {
                &&& final(self)@ == old(self)@
                &&& out.closed@.len() == 0
                &&& out.step is Ignore
            },
            acted_on(*policy, frame, src, now_unix) ==> {
                let f = frame->Some_0;
                let from = src->V6_0;
                match f.kind {
                    RelayKind::Register => if old(self)@.dom().contains(f.key()) {
                        &&& final(self)@ == renewed(old(self)@, f, from, now_unix)
                        &&& out.closed@.len() == 0
                        &&& out.step is Acknowledge
                        &&& acknowledges(out.step->Acknowledge_0, final(self)@, f, now_unix)
                    } else {
                        &&& final(self)@ == live(old(self)@, now_unix)
                        &&& lists_expired(out.closed@, old(self)@, now_unix)
                        &&& if final(self)@.dom().len() >= MAX_SESSIONS {
                            out.step is Ignore
                        } else {
                            out.step is Bind && requests(out.step->Bind_0, f, from, now_unix)
                        }
                    },
                    _ => {
                        &&& final(self)@ == old(self)@.remove(f.key())
                        &&& out.step is Ignore
                        &&& old(self)@.dom().contains(f.key()) ==> out.closed@.len() == 1
                            && out.closed@[0]@ == f.key()
                        &&& !old(self)@.dom().contains(f.key()) ==> out.closed@.len() == 0
                    },
                }
            },
    {
        let f = match frame {
            Some(f) => f,
            None => {
                return ControlOutcome { closed: Vec::new(), step: ControlStep::Ignore };
            },
        };
        let from = match src {
            SocketAddr::V4 { .. } => {
                return ControlOutcome { closed: Vec::new(), step: ControlStep::Ignore };
            },
            SocketAddr::V6(v6) => v6,
        };
        if !within_skew(f.seq, now_unix, SEQ_SKEW_TOLERANCE_SECS) || !policy.allows(&f.self_key) {
            return ControlOutcome { closed: Vec::new(), step: ControlStep::Ignore };
        }
        let key = f.session_key();
        match f.kind {
            RelayKind::RegisterAck => ControlOutcome {
                closed: Vec::new(),
                step: ControlStep::Ignore,
            },
            RelayKind::Unregister => {
                let mut closed: Vec<SessionKey> = Vec::new();
                if self.contains(&key) {
                    self.remove(&key);
                    closed.push(key);
                } else {
                    assert(self@.remove(key@) =~= self@);
                }
                ControlOutcome { closed, step: ControlStep::Ignore }
            },
            RelayKind::Register => {
                if f.port == 0 {
                    return ControlOutcome { closed: Vec::new(), step: ControlStep::Ignore };
                }
                let side: usize = if same_key(&f.self_key, &key[0]) {
                    0
                } else {
                    1
                };
                let reg = Registration {
                    key,
                    side,
                    data_addr: SocketAddrV6::new(from.ip, f.port, 0, 0),
                    frame: f,
                    now_unix,
                };
                if self.contains(&key) {
                    let ack = self.renew(reg);
                    return ControlOutcome {
                        closed: Vec::new(),
                        step: ControlStep::Acknowledge(ack),
                    };
                }
                let closed = self.prune(now_unix);
                if self.len() >= MAX_SESSIONS {
                    return ControlOutcome { closed, step: ControlStep::Ignore };
                }
                ControlOutcome { closed, step: ControlStep::Bind(reg) }
            },
        }
    }

    /// Opens the requested session on the port that was bound for it; `None`
    /// for the port when binding failed. Gives the acknowledgement to send, or
    /// nothing when the session could not be opened.
    pub fn open(&mut self, reg: Registration, port: Option<u16>) -> (ack: Option<Acknowledgement>)
        requires
            old(self).wf(),
            reg.key@ == reg.frame.key(),
            reg.side == relay::session_side(reg.frame.self_key, reg.key@),
        ensures
            final(self).wf(),
            ack is Some <==> port is Some && old(self)@.dom().len() < MAX_SESSIONS,
            ack is None ==> final(self)@ == old(self)@,
            ack matches Some(a) ==> {
                &&& final(self)@ == seen_at(
                    old(self)@.insert(reg.key@, fresh_session(port->Some_0, reg.now_unix)),
                    reg.key@,
                    reg.side as int,
                    reg.data_addr,
                    reg.now_unix,
                )
                &&& acknowledges(a, final(self)@, reg.frame, reg.now_unix)
            },
    {
        match port {
            None => None,
            Some(p) => if self.insert(reg.key, p, reg.now_unix) {
                Some(self.renew(reg))
            } else {
                None
            },
        }
    }
}

/// A node that the policy does not allow changes nothing, whatever it sends.
pub proof fn law_unlisted_nodes_ignored(
    policy: RelayPolicy,
    frame: RelayFrame,
    src: SocketAddr,
    now_unix: u64,
)
    requires
        !policy.admits(frame.self_key),
    ensures
        !acted_on(policy, Some(frame), src, now_unix),
{
}

/// A frame whose time is too far off changes nothing.
pub proof fn law_stale_frames_ignored(
    policy: RelayPolicy,
    frame: RelayFrame,
    src: SocketAddr,
    now_unix: u64,
)
    requires
        apart(frame.seq, now_unix) > SEQ_SKEW_TOLERANCE_SECS,
    ensures
        !acted_on(policy, Some(frame), src, now_unix),
{
}

/// When the two nodes of a pair register one after the other, both get the
/// same port, and the session then passes packets between the two addresses
/// from which they registered. That holds of a session just opened, and of one
/// that is open already, wherever its sides were before.
pub proof fn law_pair_shares_one_session(
    m: Sessions,
    port: u16,
    first: RelayFrame,
    from_first: SocketAddrV6,
    second: RelayFrame,
    from_second: SocketAddrV6,
    t1: u64,
    t2: u64,
)
    requires
        first.self_key == second.peer_key,
        first.peer_key == second.self_key,
        first.self_key != first.peer_key,
        m.dom().contains(first.key()) ==> m[first.key()].addrs.len() == 2 && m[first.key()].port
            == port,
    ensures
        ({
            let m0 = if m.dom().contains(first.key()) {
                m
            } else {
                m.insert(first.key(), fresh_session(port, t1))
            };
            let m1 = renewed(m0, first, from_first, t1);
            let m2 = renewed(m1, second, from_second, t2);
            let a = data_addr(from_first, first);
            let b = data_addr(from_second, second);
            &&& first.key() == second.key()
            &&& m1[first.key()].port == port
            &&& m2[second.key()].port == port
            &&& other_side(m2[second.key()].addrs, a) == Some(b)
            &&& other_side(m2[second.key()].addrs, b) == Some(a)
        }),
{
    relay::law_session_key_symmetric(first.self_key, first.peer_key);
    relay::law_session_sides_differ(first.self_key, first.peer_key);
}

/// A packet is let through exactly when fewer than 2000 were let through in the
/// window of one second that it falls in, whenever in that window it comes.
pub proof fn law_packet_let_through(l: LimiterModel, now: int)
    requires
        l.wf(),
    ensures
        l.count < 2000 ==> l.lets(now),
        l.lets(now) <==> l.count < 2000 || now - l.window_start >= 1_000_000_000,
{
}

/// A packet that is let through counts in its window, one that is not counts as
/// dropped; the first packet a second or more after the window began begins a
/// new one.
pub proof fn law_packet_is_counted(l: LimiterModel, now: int)
    requires
        l.wf(),
    ensures
        l.after(now).wf(),
        now - l.window_start >= 1_000_000_000 ==> l.after(now).window_start == now && l.after(
            now,
        ).count == 1 && l.after(now).dropped == 0,
        now - l.window_start < 1_000_000_000 ==> {
            &&& l.after(now).window_start == l.window_start
            &&& l.count < 2000 ==> l.after(now).count == l.count + 1 && l.after(now).dropped
                == l.dropped
            &&& l.count == 2000 ==> l.after(now).count == 2000 && l.after(now).dropped == if l.dropped
                < u32::MAX {
                l.dropped + 1
            } else {
                l.dropped
            }
        },
{
}

/// As many packets as there is room for in the window are all let through,
/// whatever their times.
pub proof fn law_room_is_used(l: LimiterModel, times: Seq<int>)
    requires
        l.wf(),
        l.count + times.len() <= 2000,
    ensures
        let_through(l, times) == times.len(),
    decreases times.len(),
{
    if times.len() > 0 {
        law_packet_is_counted(l, times[0]);
        law_packet_let_through(l, times[0]);
        law_room_is_used(l.after(times[0]), times.skip(1));
    }
}

/// A packet goes to a side exactly when it comes over IPv6 from the other one,
/// is no control frame, and cannot have been cut off.
pub proof fn law_destination(
    addrs: Seq<Option<SocketAddrV6>>,
    src: SocketAddr,
    is_control_frame: bool,
    len: usize,
    to: SocketAddrV6,
)
    requires
        addrs.len() == 2,
    ensures
        destination(addrs, src, is_control_frame, len) == Some(to) <==> {
            &&& src is V6
            &&& !is_control_frame
            &&& len != 2048
            &&& ({
                let from = Some(candidates::normal(src->V6_0));
                ||| addrs[0] == from && addrs[1] == Some(to)
                ||| addrs[0] != from && addrs[1] == from && addrs[0] == Some(to)
            })
        },
{
}

/// A session expires when it has not been renewed for more than 180 seconds, and
/// clearing takes exactly the expired ones.
pub proof fn law_sessions_expire(m: Sessions, k: Seq<[u8; 32]>, now_unix: u64)
    ensures
        live(m, now_unix).dom().contains(k) <==> m.dom().contains(k) && now_unix
            - m[k].last_seen_unix <= 180,
        live(m, now_unix).dom().contains(k) ==> live(m, now_unix)[k] == m[k],
{
}

/// A session just opened has its port, and neither side is known.
pub proof fn law_session_begins_empty(port: u16, now_unix: u64)
    ensures
        fresh_session(port, now_unix).port == port,
        fresh_session(port, now_unix).last_seen_unix == now_unix,
        fresh_session(port, now_unix).addrs.len() == 2,
        fresh_session(port, now_unix).addrs[0] is None,
        fresh_session(port, now_unix).addrs[1] is None,
{
}

/// The relay acts on a frame exactly when it came over IPv6, its time is within
/// 300 seconds, its sender is allowed, and it asks for a session with a port or
/// for closing one.
pub proof fn law_frames_acted_on(
    policy: RelayPolicy,
    f: RelayFrame,
    src: SocketAddr,
    now_unix: u64,
)
    ensures
        acted_on(policy, Some(f), src, now_unix) <==> {
            &&& src is V6
            &&& -300 <= f.seq - now_unix <= 300
            &&& policy is AnyMember || policy->Allowlist_0@.contains(f.self_key)
            &&& (f.kind == RelayKind::Register && f.port != 0) || f.kind == RelayKind::Unregister
        },
        !acted_on(policy, None, src, now_unix),
{
}

/// A registration notes where its sender is: at the address that the frame came
/// from, at the port that it names, on the sender's own side. The session is
/// renewed and keeps its port; the other side and all other sessions stay.
pub proof fn law_registration_notes_the_sender(
    m: Sessions,
    f: RelayFrame,
    src: SocketAddrV6,
    now_unix: u64,
    other: Seq<[u8; 32]>,
    side: int,
)
    requires
        f.self_key != f.peer_key,
        m.dom().contains(f.key()),
        m[f.key()].addrs.len() == 2,
        side == 0 || side == 1,
        f.key()[side] == f.self_key,
    ensures
        ({
            let r = renewed(m, f, src, now_unix);
            &&& r.dom() == m.dom()
            &&& r[f.key()].port == m[f.key()].port
            &&& r[f.key()].last_seen_unix == now_unix
            &&& r[f.key()].addrs.len() == 2
            &&& r[f.key()].addrs[side] == Some(
                SocketAddrV6 { ip: src.ip, port: f.port, flowinfo: 0, scope_id: 0 },
            )
            &&& r[f.key()].addrs[1 - side] == m[f.key()].addrs[1 - side]
            &&& other != f.key() && m.dom().contains(other) ==> r[other] == m[other]
        }),
{
    relay::law_session_key_names_both(f.self_key, f.peer_key);
    relay::law_session_sides_differ(f.self_key, f.peer_key);
    assert(renewed(m, f, src, now_unix).dom() =~= m.dom());
}

/// An acknowledgement tells the sender the port of its session, under the keys
/// of the question.
pub proof fn law_acknowledgement_tells_the_port(
    a: Acknowledgement,
    m: Sessions,
    f: RelayFrame,
    now_unix: u64,
)
    requires
        acknowledges(a, m, f, now_unix),
    ensures
        a.key@ == f.key(),
        m.dom().contains(f.key()),
        a.addrs@ == m[f.key()].addrs,
        a.frame.kind == RelayKind::RegisterAck,
        a.frame.port == m[f.key()].port,
        a.frame.seq == now_unix,
        a.frame.self_key == f.self_key,
        a.frame.peer_key == f.peer_key,
{
}

/// A request for a socket keeps what the frame asked for, so that the session can
/// be opened with it.
pub proof fn law_request_keeps_the_question(
    r: Registration,
    f: RelayFrame,
    src: SocketAddrV6,
    now_unix: u64,
)
    requires
        requests(r, f, src, now_unix),
    ensures
        r.key@ == f.key(),
        r.key@[r.side as int] == f.self_key,
        r.data_addr == (SocketAddrV6 { ip: src.ip, port: f.port, flowinfo: 0, scope_id: 0 }),
        r.frame == f,
        r.now_unix == now_unix,
{
    relay::law_session_key_names_both(f.self_key, f.peer_key);
}

/// Clearing tells exactly which sessions it closed: those not renewed for more
/// than 180 seconds, each once.
pub proof fn law_closed_sessions_are_told(
    list: Seq<SessionKey>,
    m: Sessions,
    now_unix: u64,
    k: Seq<[u8; 32]>,
    i: int,
    j: int,
)
    requires
        lists_expired(list, m, now_unix),
    ensures
        m.dom().contains(k) && now_unix - m[k].last_seen_unix > 180 ==> exists|q: int|
            0 <= q < list.len() && (#[trigger] list[q])@ == k,
        0 <= i < list.len() ==> m.dom().contains(list[i]@) && now_unix
            - m[list[i]@].last_seen_unix > 180,
        0 <= i < list.len() && 0 <= j < list.len() && i != j ==> list[i] != list[j],
{
}

} // verus!
