//! The punching state machine of one peer.
//!
//! No signalling protocol is needed to get through two firewalls: each side
//! sends WireGuard handshakes to the other's candidates until the two
//! firewalls' states meet. This machine takes turns among the candidates
//! while there is no connection, and follows the peer once there is one.

use crate::addr::SocketAddrV6;
use crate::candidates::{self, contains_endpoint, normalize, same_list};
use crate::seqs;
use crate::time::SystemTime;
use vstd::prelude::*;

verus! {

/// How long a candidate is tried before the next one, in nanoseconds: 2.5 s.
pub const ROTATE_INTERVAL: u128 = 2_500_000_000;

/// How old a handshake may be for the connection to count as up, in
/// nanoseconds: 180 s.
pub const HANDSHAKE_FRESH: u128 = 180_000_000_000;

/// What the machine is doing.
#[derive(Clone, Copy, PartialEq, Eq, Debug, Structural)]
pub enum PunchState {
    /// Taking turns among the candidates.
    Probing {
        /// The candidate being tried.
        candidate_index: usize,
        /// How many times all candidates have been tried.
        rounds: u32,
    },
    /// A fresh handshake is there.
    Connected {
        /// The endpoint that the device holds, normalized.
        endpoint: SocketAddrV6,
    },
}

/// What the device reports of a peer.
#[derive(Clone, Copy, Debug)]
pub struct Observation {
    /// When the last handshake took place.
    pub last_handshake: Option<SystemTime>,
    /// The endpoint that the device holds.
    pub kernel_endpoint: Option<SocketAddrV6>,
}

/// What the machine asks to be done.
#[derive(Clone, Copy, PartialEq, Eq, Debug, Structural)]
pub enum Action {
    /// Make this the peer's endpoint in the device.
    SetEndpoint(SocketAddrV6),
    /// Drop the peer's session in the device and enter the peer anew with this
    /// endpoint, so that the next packet starts a new handshake.
    Rehandshake(SocketAddrV6),
    /// Send a packet to the peer's overlay address, to start a handshake or to
    /// let the peer see a new source address.
    Nudge,
    /// This endpoint works: remember it.
    MarkGood(SocketAddrV6),
}

/// The punching state machine of one peer.
#[derive(Debug)]
pub struct PeerFsm {
    candidates: Vec<SocketAddrV6>,
    state: PunchState,
    last_transition: SystemTime,
}

/// What a [`PeerFsm`] holds.
pub struct FsmModel {
    /// The candidates.
    pub candidates: Seq<SocketAddrV6>,
    /// What the machine is doing.
    pub state: PunchState,
    /// When the candidate in use last changed, in nanoseconds since the epoch.
    pub last_transition: int,
}

/// Whether a handshake at `last` (nanoseconds since the epoch) is fresh at
/// `now`. One in the future, after the clock was set back, counts as fresh.
pub open spec fn fresh(last: Option<SystemTime>, now: int) -> bool {
    match last {
        Some(t) => now - t@ < HANDSHAKE_FRESH,
        None => false,
    }
}

/// The actions that move on to an endpoint.
pub open spec fn try_actions(ep: SocketAddrV6) -> Seq<Action> {
    seq![Action::SetEndpoint(ep), Action::Nudge]
}

/// The actions that move on to an endpoint and drop the running session.
pub open spec fn flush_actions(ep: SocketAddrV6) -> Seq<Action> {
    seq![Action::Rehandshake(ep), Action::Nudge]
}

impl FsmModel {
    /// Whether the machine is sound: every endpoint is normalized, and while
    /// probing the index points at a candidate, or index and rounds are 0 when
    /// there is none.
    pub open spec fn wf(self) -> bool {
        &&& candidates::all_normal(self.candidates)
        &&& self.candidates.len() <= usize::MAX
        &&& match self.state {
            PunchState::Probing { candidate_index, rounds } => candidate_index
                < self.candidates.len() || (candidate_index == 0 && rounds == 0
                && self.candidates.len() == 0),
            PunchState::Connected { endpoint } => endpoint == candidates::normal(endpoint),
        }
    }

    /// The endpoint in use: the connected one, or the candidate being tried.
    pub open spec fn current(self) -> Option<SocketAddrV6> {
        match self.state {
            PunchState::Connected { endpoint } => Some(endpoint),
            PunchState::Probing { candidate_index, .. } => if candidate_index
                < self.candidates.len() {
                Some(self.candidates[candidate_index as int])
            } else {
                None
            },
        }
    }

    /// Probing from candidate `index` at `now`.
    pub open spec fn probing(self, index: int, rounds: u32, now: int) -> FsmModel {
        FsmModel {
            candidates: self.candidates,
            state: PunchState::Probing { candidate_index: index as usize, rounds },
            last_transition: now,
        }
    }

    /// Connected at `endpoint` since `now`.
    pub open spec fn connected(self, endpoint: SocketAddrV6, now: int) -> FsmModel {
        FsmModel {
            candidates: self.candidates,
            state: PunchState::Connected { endpoint },
            last_transition: now,
        }
    }

    /// The machine after a kick at `now`, and what it asks for.
    pub open spec fn kicked(self, now: int) -> (FsmModel, Seq<Action>) {
        (
            FsmModel { last_transition: now, ..self },
            match (self.state, self.current()) {
                (PunchState::Connected { .. }, _) => seq![Action::Nudge],
                (PunchState::Probing { .. }, Some(ep)) => try_actions(ep),
                (PunchState::Probing { .. }, None) => seq![],
            },
        )
    }

    /// Which candidate of the new list `next` to try: the first one that the
    /// old list lacks, or else the one being tried, or else the first.
    pub open spec fn pointed(self, next: Seq<SocketAddrV6>) -> int {
        let added = seqs::first_where(next, |ep: SocketAddrV6| !self.candidates.contains(ep));
        if added < next.len() {
            added
        } else {
            let same = seqs::first_where(next, |ep: SocketAddrV6| self.current() == Some(ep));
            if same < next.len() {
                same
            } else {
                0
            }
        }
    }

    /// The machine after its candidates were replaced at `now`, and what it
    /// asks for.
    pub open spec fn with_candidates(self, list: Seq<SocketAddrV6>, now: int) -> (
        FsmModel,
        Seq<Action>,
    ) {
        let next = seqs::first_distinct(candidates::normals(list));
        let swapped = FsmModel { candidates: next, ..self };
        match self.state {
            PunchState::Connected { .. } => (swapped, seq![]),
            PunchState::Probing { rounds, .. } => if next == self.candidates {
                (self, seq![])
            } else if next.len() == 0 {
                (swapped.probing(0, 0, self.last_transition), seq![])
            } else {
                let index = self.pointed(next);
                if self.current() == Some(next[index]) {
                    (swapped.probing(index, rounds, self.last_transition), seq![])
                } else {
                    (swapped.probing(index, rounds, now), try_actions(next[index]))
                }
            },
        }
    }

    /// The first candidate that differs from `avoid`, the number of candidates
    /// when there is none.
    pub open spec fn alternative(self, avoid: Option<SocketAddrV6>) -> int {
        match avoid {
            Some(a) => seqs::first_where(
                self.candidates,
                |ep: SocketAddrV6| ep != candidates::normal(a),
            ),
            None => 0,
        }
    }

    /// The machine after it was told at `now` to leave its connection and
    /// start with a candidate other than `avoid`, and where it goes. A machine
    /// that is not connected, or has no such candidate, stays as it is.
    pub open spec fn left(self, avoid: Option<SocketAddrV6>, now: int) -> (
        FsmModel,
        Option<SocketAddrV6>,
    ) {
        let index = self.alternative(avoid);
        if self.state is Connected && index < self.candidates.len() {
            (self.probing(index, 0, now), Some(self.candidates[index]))
        } else {
            (self, None)
        }
    }

    /// The machine after a tick at `now` that found `obs`, and what it asks
    /// for.
    pub open spec fn ticked(self, now: int, obs: Observation) -> (FsmModel, Seq<Action>) {
        let up = fresh(obs.last_handshake, now);
        let n = self.candidates.len() as int;
        match self.state {
            PunchState::Probing { candidate_index, rounds } => if up {
                match (obs.kernel_endpoint, self.current()) {
                    (Some(ke), _) => (
                        self.connected(candidates::normal(ke), now),
                        seq![Action::MarkGood(candidates::normal(ke))],
                    ),
                    (None, Some(ep)) => (self.connected(ep, now), seq![Action::MarkGood(ep)]),
                    (None, None) => (self, seq![]),
                }
            } else if n == 0 || now - self.last_transition < ROTATE_INTERVAL {
                (self, seq![])
            } else if candidate_index + 1 < n {
                (
                    self.probing(candidate_index + 1, rounds, now),
                    try_actions(self.candidates[candidate_index + 1]),
                )
            } else {
                let next_round = if rounds == u32::MAX {
                    rounds
                } else {
                    (rounds + 1) as u32
                };
                (self.probing(0, next_round, now), try_actions(self.candidates[0]))
            },
            PunchState::Connected { endpoint } => if !up {
                (
                    self.probing(0, 0, now),
                    if n == 0 {
                        seq![]
                    } else {
                        try_actions(self.candidates[0])
                    },
                )
            } else {
                match obs.kernel_endpoint {
                    Some(ke) if candidates::normal(ke) != endpoint => (
                        self.connected(candidates::normal(ke), now),
                        seq![Action::MarkGood(candidates::normal(ke))],
                    ),
                    _ => (self, seq![]),
                }
            },
        }
    }
}

impl View for PeerFsm {
    type V = FsmModel;

    closed spec fn view(&self) -> FsmModel {
        FsmModel {
            candidates: self.candidates@,
            state: self.state,
            last_transition: self.last_transition@,
        }
    }
}

/// Tells whether a handshake is fresh. A handshake in the future, after the
/// clock was set back, counts as fresh.
pub fn handshake_is_fresh(last_handshake: Option<SystemTime>, now: SystemTime) -> (r: bool)
    ensures
        r == fresh(last_handshake, now@),
{
    match last_handshake {
        Some(t) => match now.nanos_since(t) {
            Some(d) => d < HANDSHAKE_FRESH,
            None => true,
        },
        None => false,
    }
}

/// Every endpoint normalized, each kept where it first stands.
fn normalized_distinct(list: &[SocketAddrV6]) -> (out: Vec<SocketAddrV6>)
    ensures
        out@ == seqs::first_distinct(candidates::normals(list@)),
{
    let mut out: Vec<SocketAddrV6> = Vec::new();
    let mut i: usize = 0;
    assert(candidates::normals(list@.take(0)) =~= seq![]);
    while i < list.len()
        invariant
            i <= list.len(),
            out@ == seqs::first_distinct(candidates::normals(list@.take(i as int))),
        decreases list.len() - i,
    {
        let ep = normalize(list[i]);
        assert(candidates::normals(list@.take(i + 1)) =~= candidates::normals(
            list@.take(i as int),
        ).push(ep));
        assert(candidates::normals(list@.take(i + 1)).drop_last() =~= candidates::normals(
            list@.take(i as int),
        ));
        if !contains_endpoint(out.as_slice(), ep) {
            out.push(ep);
        }
        i = i + 1;
    }
    assert(list@.take(i as int) =~= list@);
    out
}

/// The two actions that move on to an endpoint.
fn try_endpoint(ep: SocketAddrV6) -> (actions: Vec<Action>)
    ensures
        actions@ == try_actions(ep),
{
    let mut actions: Vec<Action> = Vec::new();
    actions.push(Action::SetEndpoint(ep));
    actions.push(Action::Nudge);
    assert(actions@ =~= try_actions(ep));
    actions
}

fn mark_good(ep: SocketAddrV6) -> (actions: Vec<Action>)
    ensures
        actions@ == seq![Action::MarkGood(ep)],
{
    let mut actions: Vec<Action> = Vec::new();
    actions.push(Action::MarkGood(ep));
    assert(actions@ =~= seq![Action::MarkGood(ep)]);
    actions
}

impl PeerFsm {
    /// A machine that starts to probe the candidates.
    pub fn new(candidates: Vec<SocketAddrV6>, now: SystemTime) -> (m: Self)
        ensures
            m@ == (FsmModel {
                candidates: candidates::normals(candidates@),
                state: PunchState::Probing { candidate_index: 0, rounds: 0 },
                last_transition: now@,
            }),
            m@.wf(),
    {
        let mut list: Vec<SocketAddrV6> = Vec::new();
        let mut i: usize = 0;
        while i < candidates.len()
            invariant
                i <= candidates.len(),
                list@ == candidates::normals(candidates@.take(i as int)),
            decreases candidates.len() - i,
        {
            list.push(normalize(candidates[i]));
            i = i + 1;
            assert(list@ =~= candidates::normals(candidates@.take(i as int)));
        }
        assert(candidates@.take(i as int) =~= candidates@);
        PeerFsm {
            candidates: list,
            state: PunchState::Probing { candidate_index: 0, rounds: 0 },
            last_transition: now,
        }
    }

    /// What the machine is doing.
    pub fn state(&self) -> (s: PunchState)
        ensures
            s == self@.state,
    {
        self.state
    }

    /// How many candidates there are.
    pub fn candidates_len(&self) -> (n: usize)
        ensures
            n == self@.candidates.len(),
    {
        self.candidates.len()
    }

    /// The endpoint in use: the connected one, or the candidate being tried.
    pub fn current_candidate(&self) -> (ep: Option<SocketAddrV6>)
        ensures
            ep == self@.current(),
    {
        match self.state {
            PunchState::Connected { endpoint } => Some(endpoint),
            PunchState::Probing { candidate_index, .. } => if candidate_index
                < self.candidates.len() {
                Some(self.candidates[candidate_index])
            } else {
                None
            },
        }
    }

    /// Retries at once: on start, and when this node's own address changed.
    ///
    /// A connection is only nudged: the peer's endpoint need not change, the
    /// peer just has to see a packet from the new source address.
    pub fn kick(&mut self, now: SystemTime) -> (actions: Vec<Action>)
        requires
            old(self)@.wf(),
        ensures
            (final(self)@, actions@) == old(self)@.kicked(now@),
            final(self)@.wf(),
    {
        let current = self.current_candidate();
        self.last_transition = now;
        match self.state {
            PunchState::Connected { .. } => {
                let mut actions: Vec<Action> = Vec::new();
                actions.push(Action::Nudge);
                assert(actions@ =~= seq![Action::Nudge]);
                actions
            },
            PunchState::Probing { .. } => match current {
                Some(ep) => try_endpoint(ep),
                None => Vec::new(),
            },
        }
    }

    /// Replaces the candidates, after a rendezvous layer reported something.
    ///
    /// A connection is never disturbed: only the list changes. While probing,
    /// an endpoint that the old list lacked is tried at once, since it is live
    /// evidence; otherwise the machine stays with the candidate it is trying.
    pub fn set_candidates(&mut self, candidates: Vec<SocketAddrV6>, now: SystemTime) -> (actions:
        Vec<Action>)
        requires
            old(self)@.wf(),
        ensures
            (final(self)@, actions@) == old(self)@.with_candidates(candidates@, now@),
            final(self)@.wf(),
    {
        let next = normalized_distinct(candidates.as_slice());
        assert(next@.len() == next.len());
        let ghost m = self@;
        proof {
            lemma_distinct_normal(candidates@);
        }
        if same_list(self.candidates.as_slice(), next.as_slice()) {
            return Vec::new();
        }
        let previous = self.current_candidate();
        match self.state {
            PunchState::Connected { .. } => {
                self.candidates = next;
                Vec::new()
            },
            PunchState::Probing { candidate_index: _, rounds } => {
                if next.len() == 0 {
                    self.candidates = next;
                    self.state = PunchState::Probing { candidate_index: 0, rounds: 0 };
                    return Vec::new();
                }
                let ghost is_new = |ep: SocketAddrV6| !m.candidates.contains(ep);
                let mut index: usize = 0;
                while index < next.len() && contains_endpoint(
                    self.candidates.as_slice(),
                    next[index],
                )
                    invariant
                        index <= next.len(),
                        self.candidates@ == m.candidates,
                        is_new == (|ep: SocketAddrV6| !m.candidates.contains(ep)),
                        forall|j: int| 0 <= j < index ==> !is_new(#[trigger] next@[j]),
                    decreases next.len() - index,
                {
                    index = index + 1;
                }
                proof {
                    seqs::lemma_first_where_is(next@, is_new, index as int);
                }
                if index == next.len() {
                    let ghost is_same = |ep: SocketAddrV6| m.current() == Some(ep);
                    index = 0;
                    while index < next.len() && previous != Some(next[index])
                        invariant
                            index <= next.len(),
                            previous == m.current(),
                            is_same == (|ep: SocketAddrV6| m.current() == Some(ep)),
                            forall|j: int| 0 <= j < index ==> !is_same(#[trigger] next@[j]),
                        decreases next.len() - index,
                    {
                        index = index + 1;
                    }
                    proof {
                        seqs::lemma_first_where_is(next@, is_same, index as int);
                    }
                    if index == next.len() {
                        index = 0;
                    }
                }
                assert(index == m.pointed(next@));
                let pointed = next[index];
                self.candidates = next;
                self.state = PunchState::Probing { candidate_index: index, rounds };
                if previous == Some(pointed) {
                    return Vec::new();
                }
                self.last_transition = now;
                try_endpoint(pointed)
            },
        }
    }

    /// Leaves a connection and probes from the first candidate other than
    /// `avoid`; tells which. Does nothing when not connected, or when there is
    /// no other candidate.
    fn leave(&mut self, avoid: Option<SocketAddrV6>, now: SystemTime) -> (to: Option<SocketAddrV6>)
        requires
            old(self)@.wf(),
        ensures
            (final(self)@, to) == old(self)@.left(avoid, now@),
            final(self)@.wf(),
    {
        let ghost m = self@;
        match self.state {
            PunchState::Probing { .. } => {
                return None;
            },
            PunchState::Connected { .. } => {},
        }
        let mut index: usize = 0;
        if let Some(a) = avoid {
            let a_normal = normalize(a);
            let ghost other = |ep: SocketAddrV6| ep != candidates::normal(a);
            while index < self.candidates.len() && self.candidates[index] == a_normal
                invariant
                    index <= self.candidates.len(),
                    a_normal == candidates::normal(a),
                    other == (|ep: SocketAddrV6| ep != candidates::normal(a)),
                    self@ == m,
                    forall|j: int| 0 <= j < index ==> !other(#[trigger] self@.candidates[j]),
                decreases self.candidates.len() - index,
            {
                index = index + 1;
            }
            proof {
                seqs::lemma_first_where_is(self@.candidates, other, index as int);
            }
        }
        if index >= self.candidates.len() {
            return None;
        }
        let to = self.candidates[index];
        self.state = PunchState::Probing { candidate_index: index, rounds: 0 };
        self.last_transition = now;
        Some(to)
    }

    /// Leaves a connection and probes from the first candidate other than
    /// `avoid`. Does nothing when not connected, or when there is no other
    /// candidate.
    pub fn retry_from(&mut self, avoid: Option<SocketAddrV6>, now: SystemTime) -> (actions: Vec<
        Action,
    >)
        requires
            old(self)@.wf(),
        ensures
            final(self)@ == old(self)@.left(avoid, now@).0,
            actions@ == match old(self)@.left(avoid, now@).1 {
                Some(ep) => try_actions(ep),
                None => seq![],
            },
            final(self)@.wf(),
    {
        match self.leave(avoid, now) {
            Some(ep) => try_endpoint(ep),
            None => Vec::new(),
        }
    }

    /// As [`retry_from`](Self::retry_from), and drops the running session:
    /// with the old session in place the device would just carry it over to
    /// the new endpoint and no new handshake would be seen.
    pub fn retry_from_flush(&mut self, avoid: Option<SocketAddrV6>, now: SystemTime) -> (actions:
        Vec<Action>)
        requires
            old(self)@.wf(),
        ensures
            final(self)@ == old(self)@.left(avoid, now@).0,
            actions@ == match old(self)@.left(avoid, now@).1 {
                Some(ep) => flush_actions(ep),
                None => seq![],
            },
            final(self)@.wf(),
    {
        match self.leave(avoid, now) {
            Some(ep) => {
                let mut actions: Vec<Action> = Vec::new();
                actions.push(Action::Rehandshake(ep));
                actions.push(Action::Nudge);
                assert(actions@ =~= flush_actions(ep));
                actions
            },
            None => Vec::new(),
        }
    }

    /// Advances the machine by one tick.
    pub fn tick(&mut self, now: SystemTime, obs: Observation) -> (actions: Vec<Action>)
        requires
            old(self)@.wf(),
        ensures
            (final(self)@, actions@) == old(self)@.ticked(now@, obs),
            final(self)@.wf(),
    {
        let is_fresh = handshake_is_fresh(obs.last_handshake, now);
        match self.state {
            PunchState::Probing { candidate_index, rounds } => {
                if is_fresh {
                    let endpoint = match obs.kernel_endpoint {
                        Some(ke) => normalize(ke),
                        None => match self.current_candidate() {
                            Some(ep) => ep,
                            None => {
                                return Vec::new();
                            },
                        },
                    };
                    self.state = PunchState::Connected { endpoint };
                    self.last_transition = now;
                    return mark_good(endpoint);
                }
                if self.candidates.len() == 0 {
                    return Vec::new();
                }
                let due = match now.nanos_since(self.last_transition) {
                    Some(d) => d >= ROTATE_INTERVAL,
                    None => false,
                };
                if !due {
                    return Vec::new();
                }
                let wraps = candidate_index + 1 == self.candidates.len();
                let next: usize = if wraps {
                    0
                } else {
                    candidate_index + 1
                };
                let next_round: u32 = if wraps {
                    rounds.saturating_add(1)
                } else {
                    rounds
                };
                self.state = PunchState::Probing { candidate_index: next, rounds: next_round };
                self.last_transition = now;
                try_endpoint(self.candidates[next])
            },
            PunchState::Connected { endpoint } => {
                if !is_fresh {
                    self.state = PunchState::Probing { candidate_index: 0, rounds: 0 };
                    self.last_transition = now;
                    if self.candidates.len() == 0 {
                        return Vec::new();
                    }
                    return try_endpoint(self.candidates[0]);
                }
                if let Some(ke) = obs.kernel_endpoint {
                    let roamed = normalize(ke);
                    if roamed != endpoint {
                        self.state = PunchState::Connected { endpoint: roamed };
                        self.last_transition = now;
                        return mark_good(roamed);
                    }
                }
                Vec::new()
            },
        }
    }
}

proof fn lemma_distinct_normal(list: Seq<SocketAddrV6>)
    ensures
        candidates::all_normal(seqs::first_distinct(candidates::normals(list))),
{
    let n = candidates::normals(list);
    let d = seqs::first_distinct(n);
    seqs::lemma_first_distinct(n);
    assert forall|i: int| 0 <= i < d.len() implies #[trigger] d[i] == candidates::normal(d[i]) by {
        assert(d.contains(d[i]));
        assert(n.contains(d[i]));
        let k = choose|k: int| 0 <= k < n.len() && n[k] == d[i];
        assert(n[k] == candidates::normal(list[k]));
    }
}

/// An observation without a handshake.
pub open spec fn silence() -> Observation {
    Observation { last_handshake: None, kernel_endpoint: None }
}

/// The machine after `k` ticks without a handshake, each a rotation interval
/// after the one before, the first one an interval after `start`.
pub open spec fn after_silence(m: FsmModel, start: int, k: nat) -> FsmModel
    decreases k,
{
    if k == 0 {
        m
    } else {
        after_silence(m, start, (k - 1) as nat).ticked(
            start + k * ROTATE_INTERVAL as int,
            silence(),
        ).0
    }
}

/// A connection is never disturbed by news of other endpoints: the machine
/// stays connected where it is and asks for nothing.
pub proof fn law_connection_undisturbed(m: FsmModel, list: Seq<SocketAddrV6>, now: int)
    requires
        m.state is Connected,
    ensures
        m.with_candidates(list, now).0.state == m.state,
        m.with_candidates(list, now).0.last_transition == m.last_transition,
        m.with_candidates(list, now).1 == Seq::<Action>::empty(),
{
}

/// Handing over the same candidates again changes nothing and asks for
/// nothing.
pub proof fn law_same_candidates_again(
    m: FsmModel,
    list: Seq<SocketAddrV6>,
    now: int,
    later: int,
)
    ensures
        m.with_candidates(list, now).0.with_candidates(list, later).0 == m.with_candidates(
            list,
            now,
        ).0,
        m.with_candidates(list, now).0.with_candidates(list, later).1 == Seq::<Action>::empty(),
{
    let m1 = m.with_candidates(list, now).0;
    let next = seqs::first_distinct(candidates::normals(list));
    assert(m1.candidates == next);
}

/// News of an endpoint that was no candidate is acted on at once: a probing
/// machine moves to it.
pub proof fn law_new_endpoint_tried_at_once(m: FsmModel, list: Seq<SocketAddrV6>, now: int)
    requires
        m.wf(),
        m.state is Probing,
        list.len() <= usize::MAX,
        exists|i: int|
            0 <= i < list.len() && !m.candidates.contains(#[trigger] candidates::normal(list[i])),
    ensures
        ({
            let (m1, actions) = m.with_candidates(list, now);
            &&& m1.last_transition == now
            &&& m1.current() is Some
            &&& !m.candidates.contains(m1.current()->Some_0)
            &&& actions == try_actions(m1.current()->Some_0)
        }),
{
    let n = candidates::normals(list);
    let next = seqs::first_distinct(n);
    let i = choose|i: int|
        0 <= i < list.len() && !m.candidates.contains(#[trigger] candidates::normal(list[i]));
    seqs::lemma_first_distinct(n);
    assert(n[i] == candidates::normal(list[i]));
    assert(n.contains(n[i]));
    assert(next.contains(n[i]));
    let is_new = |ep: SocketAddrV6| !m.candidates.contains(ep);
    seqs::lemma_first_where(next, is_new);
    let j = choose|j: int| 0 <= j < next.len() && next[j] == n[i];
    assert(is_new(next[j]));
    let p = m.pointed(next);
    assert(is_new(next[p]));
    if m.current() == Some(next[p]) {
        assert(m.candidates.contains(next[p]));
    }
}

/// When no candidate is left, a probing machine is back at the start: index 0,
/// round 0, and it asks for nothing.
pub proof fn law_no_candidates_start_over(m: FsmModel, now: int)
    requires
        m.wf(),
        m.state is Probing,
    ensures
        ({
            let (m1, actions) = m.with_candidates(seq![], now);
            &&& m1.candidates == Seq::<SocketAddrV6>::empty()
            &&& m1.state == (PunchState::Probing { candidate_index: 0, rounds: 0 })
            &&& actions == Seq::<Action>::empty()
        }),
{
    assert(candidates::normals(seq![]) =~= seq![]);
}

/// A machine without candidates asks for nothing while there is no handshake.
pub proof fn law_no_candidates_no_actions(m: FsmModel, now: int, obs: Observation)
    requires
        m.wf(),
        m.candidates.len() == 0,
        m.state is Probing,
        !fresh(obs.last_handshake, now),
    ensures
        m.ticked(now, obs) == (m, Seq::<Action>::empty()),
        m.kicked(now).1 == Seq::<Action>::empty(),
{
}

/// Only a fresh handshake makes an endpoint good.
pub proof fn law_good_needs_handshake(m: FsmModel, now: int, obs: Observation, ep: SocketAddrV6)
    requires
        m.ticked(now, obs).1.contains(Action::MarkGood(ep)),
    ensures
        fresh(obs.last_handshake, now),
        m.ticked(now, obs).0.state == (PunchState::Connected { endpoint: ep }),
{
    let acts = m.ticked(now, obs).1;
    let k = choose|k: int| 0 <= k < acts.len() && acts[k] == Action::MarkGood(ep);
    assert(acts[k] == Action::MarkGood(ep));
}

/// A retry never goes back to the endpoint it is told to avoid.
pub proof fn law_retry_avoids(m: FsmModel, avoid: SocketAddrV6, now: int)
    requires
        m.wf(),
        m.left(Some(avoid), now).1 is Some,
    ensures
        m.left(Some(avoid), now).1->Some_0 != candidates::normal(avoid),
        m.left(Some(avoid), now).0.current() == m.left(Some(avoid), now).1,
{
    seqs::lemma_first_where(m.candidates, |ep: SocketAddrV6| ep != candidates::normal(avoid));
}

/// A clock that was set back never makes a probing machine hurry.
pub proof fn law_clock_set_back(m: FsmModel, now: int, obs: Observation)
    requires
        m.state is Probing,
        now < m.last_transition,
        !fresh(obs.last_handshake, now),
    ensures
        m.ticked(now, obs) == (m, Seq::<Action>::empty()),
{
}

/// Without a handshake the machine takes turns: after `k` rotations it tries
/// candidate `k` modulo their number, having gone round `k` divided by their
/// number times.
pub proof fn law_rotation(m: FsmModel, start: int, k: nat)
    requires
        m.wf(),
        m.candidates.len() > 0,
        m.state == (PunchState::Probing { candidate_index: 0, rounds: 0 }),
        m.last_transition == start,
        k as int / m.candidates.len() as int <= u32::MAX,
    ensures
        after_silence(m, start, k) == m.probing(
            k as int % m.candidates.len() as int,
            (k as int / m.candidates.len() as int) as u32,
            start + k * ROTATE_INTERVAL as int,
        ),
    decreases k,
{
    let n = m.candidates.len() as int;
    if k == 0 {
        assert(0int % n == 0 && 0int / n == 0) by (nonlinear_arith)
            requires
                n > 0,
        ;
    } else {
        let j = (k - 1) as nat;
        assert(j as int / n <= k as int / n) by (nonlinear_arith)
            requires
                n > 0,
                k == j + 1,
        ;
        law_rotation(m, start, j);
        let q = j as int / n;
        let r = j as int % n;
        vstd::arithmetic::div_mod::lemma_fundamental_div_mod(j as int, n);
        vstd::arithmetic::div_mod::lemma_mod_bound(j as int, n);
        vstd::arithmetic::div_mod::lemma_div_pos_is_pos(j as int, n);
        if r + 1 < n {
            vstd::arithmetic::div_mod::lemma_fundamental_div_mod_converse(k as int, n, q, r + 1);
        } else {
            assert(n * q + n == n * (q + 1)) by (nonlinear_arith);
            vstd::arithmetic::div_mod::lemma_fundamental_div_mod_converse(k as int, n, q + 1, 0);
        }
        assert(k * ROTATE_INTERVAL as int == j * ROTATE_INTERVAL as int + ROTATE_INTERVAL as int)
            by (nonlinear_arith)
            requires
                k == j + 1,
        ;
    }
}

/// A handshake is fresh for 180 seconds; one in the future is fresh too.
pub proof fn law_freshness(last: Option<SystemTime>, now: int)
    ensures
        fresh(last, now) <==> last is Some && now - last->Some_0@ < 180_000_000_000,
{
}

/// The endpoint in use is the connected one, or the candidate that the index
/// points at.
pub proof fn law_endpoint_in_use(m: FsmModel)
    ensures
        match m.state {
            PunchState::Connected { endpoint } => m.current() == Some(endpoint),
            PunchState::Probing { candidate_index, .. } => if candidate_index < m.candidates.len() {
                m.current() == Some(m.candidates[candidate_index as int])
            } else {
                m.current() is None
            },
        },
{
}

/// A fresh handshake while probing is a connection: at the endpoint that the
/// device holds, or else at the candidate being tried; that endpoint is marked
/// good. Without either there is nothing to connect to.
pub proof fn law_handshake_connects(m: FsmModel, now: int, obs: Observation)
    requires
        m.wf(),
        m.state is Probing,
        obs.last_handshake is Some,
        now - obs.last_handshake->Some_0@ < 180_000_000_000,
    ensures
        ({
            let (m1, actions) = m.ticked(now, obs);
            let at = match obs.kernel_endpoint {
                Some(ke) => Some(candidates::normal(ke)),
                None => if m.candidates.len() > 0 {
                    Some(m.candidates[m.state->candidate_index as int])
                } else {
                    None
                },
            };
            match at {
                Some(ep) => {
                    &&& m1.state == (PunchState::Connected { endpoint: ep })
                    &&& m1.last_transition == now
                    &&& m1.candidates == m.candidates
                    &&& actions == seq![Action::MarkGood(ep)]
                },
                None => m1 == m && actions.len() == 0,
            }
        }),
{
}

/// A connection stays while its handshake is fresh, follows the peer when the
/// device holds another endpoint, and is given up for the first candidate when
/// the handshake is no longer fresh.
pub proof fn law_connection_follows_the_device(m: FsmModel, now: int, obs: Observation)
    requires
        m.wf(),
        m.state is Connected,
    ensures
        ({
            let (m1, actions) = m.ticked(now, obs);
            let up = obs.last_handshake is Some && now - obs.last_handshake->Some_0@
                < 180_000_000_000;
            &&& m1.candidates == m.candidates
            &&& !up ==> {
                &&& m1.state == (PunchState::Probing { candidate_index: 0, rounds: 0 })
                &&& m1.last_transition == now
                &&& m.candidates.len() == 0 ==> actions.len() == 0
                &&& m.candidates.len() > 0 ==> actions == seq![
                    Action::SetEndpoint(m.candidates[0]),
                    Action::Nudge,
                ]
            }
            &&& up && (obs.kernel_endpoint is None || candidates::normal(
                obs.kernel_endpoint->Some_0,
            ) == m.state->endpoint) ==> m1 == m && actions.len() == 0
            &&& up && obs.kernel_endpoint is Some && candidates::normal(
                obs.kernel_endpoint->Some_0,
            ) != m.state->endpoint ==> {
                let ep = candidates::normal(obs.kernel_endpoint->Some_0);
                &&& m1.state == (PunchState::Connected { endpoint: ep })
                &&& m1.last_transition == now
                &&& actions == seq![Action::MarkGood(ep)]
            }
        }),
{
}

/// While there is no handshake the next candidate is tried once 2.5 seconds
/// have passed, round and round, and never earlier. Each time round counts.
pub proof fn law_next_candidate_is_tried(m: FsmModel, now: int, obs: Observation)
    requires
        m.wf(),
        m.state is Probing,
        m.candidates.len() > 0,
        obs.last_handshake is None || now - obs.last_handshake->Some_0@ >= 180_000_000_000,
    ensures
        ({
            let (m1, actions) = m.ticked(now, obs);
            let i = m.state->candidate_index as int;
            let wraps = i + 1 == m.candidates.len();
            let next = if wraps {
                0
            } else {
                i + 1
            };
            if now - m.last_transition >= 2_500_000_000 {
                &&& m1.state is Probing
                &&& m1.state->candidate_index == next
                &&& m1.state->rounds == if wraps && m.state->rounds < u32::MAX {
                    m.state->rounds + 1
                } else {
                    m.state->rounds as int
                }
                &&& m1.last_transition == now
                &&& m1.candidates == m.candidates
                &&& actions == seq![Action::SetEndpoint(m.candidates[next]), Action::Nudge]
            } else {
                m1 == m && actions.len() == 0
            }
        }),
{
}

/// A kick repeats the handshake at once: a connection is nudged, a candidate is
/// tried again, and the time until the next one starts anew. Nothing else
/// changes.
pub proof fn law_kick_repeats_the_handshake(m: FsmModel, now: int)
    requires
        m.wf(),
    ensures
        ({
            let (m1, actions) = m.kicked(now);
            &&& m1.candidates == m.candidates
            &&& m1.state == m.state
            &&& m1.last_transition == now
            &&& match m.state {
                PunchState::Connected { .. } => actions == seq![Action::Nudge],
                PunchState::Probing { candidate_index, .. } => if m.candidates.len() > 0 {
                    actions == seq![
                        Action::SetEndpoint(m.candidates[candidate_index as int]),
                        Action::Nudge,
                    ]
                } else {
                    actions.len() == 0
                },
            }
        }),
{
}

/// The new candidates are those handed over, with flow information and scope
/// cleared, each once; what comes first in the list comes first.
pub proof fn law_candidates_are_replaced(
    m: FsmModel,
    list: Seq<SocketAddrV6>,
    more: Seq<SocketAddrV6>,
    now: int,
    ep: SocketAddrV6,
)
    ensures
        ({
            let next = m.with_candidates(list, now).0.candidates;
            let longer = m.with_candidates(list + more, now).0.candidates;
            &&& next.contains(ep) <==> exists|i: int|
                0 <= i < list.len() && candidates::normal(#[trigger] list[i]) == ep
            &&& next.no_duplicates()
            &&& next.len() <= longer.len()
            &&& longer.take(next.len() as int) == next
        }),
{
    let n = candidates::normals(list);
    seqs::lemma_first_distinct(n);
    let next = m.with_candidates(list, now).0.candidates;
    assert(next == seqs::first_distinct(n));
    assert(candidates::normals(list + more) =~= n + candidates::normals(more));
    seqs::lemma_first_distinct_prefix(n, candidates::normals(more));
    assert(m.with_candidates(list + more, now).0.candidates == seqs::first_distinct(
        n + candidates::normals(more),
    ));
    if n.contains(ep) {
        let k = choose|k: int| 0 <= k < n.len() && n[k] == ep;
        assert(candidates::normal(list[k]) == ep);
    }
    if exists|i: int| 0 <= i < list.len() && candidates::normal(#[trigger] list[i]) == ep {
        let i = choose|i: int| 0 <= i < list.len() && candidates::normal(#[trigger] list[i]) == ep;
        assert(n[i] == ep);
    }
}

/// A probing machine that hears nothing new stays with the candidate that it is
/// trying, without hurry; when that one is gone it tries the first at once.
pub proof fn law_candidate_in_use_is_kept(m: FsmModel, list: Seq<SocketAddrV6>, now: int)
    requires
        m.wf(),
        m.state is Probing,
        m.candidates.len() > 0,
        0 < list.len() <= usize::MAX,
        forall|i: int|
            0 <= i < list.len() ==> m.candidates.contains(
                candidates::normal(#[trigger] list[i]),
            ),
    ensures
        ({
            let (m1, actions) = m.with_candidates(list, now);
            let trying = m.candidates[m.state->candidate_index as int];
            &&& m1.state is Probing
            &&& m1.state->rounds == m.state->rounds
            &&& (exists|i: int|
                0 <= i < list.len() && candidates::normal(#[trigger] list[i]) == trying) ==> {
                &&& m1.current() == Some(trying)
                &&& m1.last_transition == m.last_transition
                &&& actions.len() == 0
            }
            &&& !(exists|i: int|
                0 <= i < list.len() && candidates::normal(#[trigger] list[i]) == trying) ==> {
                &&& m1.current() == Some(candidates::normal(list[0]))
                &&& m1.last_transition == now
                &&& actions == seq![
                    Action::SetEndpoint(candidates::normal(list[0])),
                    Action::Nudge,
                ]
            }
        }),
{
    let n = candidates::normals(list);
    let next = seqs::first_distinct(n);
    let trying = m.candidates[m.state->candidate_index as int];
    seqs::lemma_first_distinct(n);
    let is_new = |ep: SocketAddrV6| !m.candidates.contains(ep);
    let is_same = |ep: SocketAddrV6| m.current() == Some(ep);
    assert forall|j: int| 0 <= j < next.len() implies !is_new(#[trigger] next[j]) by {
        assert(next.contains(next[j]));
        assert(n.contains(next[j]));
        let k = choose|k: int| 0 <= k < n.len() && n[k] == next[j];
        assert(n[k] == candidates::normal(list[k]));
    }
    seqs::lemma_first_where_is(next, is_new, next.len() as int);
    seqs::lemma_first_where(next, is_same);
    assert(n[0] == candidates::normal(list[0]));
    assert(next[0] == n[0]);
    let k = seqs::first_where(next, is_same);
    if exists|i: int| 0 <= i < list.len() && candidates::normal(#[trigger] list[i]) == trying {
        let i = choose|i: int|
            0 <= i < list.len() && candidates::normal(#[trigger] list[i]) == trying;
        assert(n[i] == trying);
        assert(n.contains(trying));
        assert(next.contains(trying));
        let j = choose|j: int| 0 <= j < next.len() && next[j] == trying;
        assert(is_same(next[j]));
    } else if k < next.len() {
        assert(is_same(next[k]));
        assert(next.contains(next[k]));
        assert(n.contains(trying));
        let j = choose|j: int| 0 <= j < n.len() && n[j] == trying;
        assert(candidates::normal(list[j]) == trying);
    }
}

/// Told to leave, a connection is left for the first candidate other than the
/// one to avoid; a machine that is not connected, or has no such candidate,
/// stays as it is.
pub proof fn law_leaves_for_another_candidate(
    m: FsmModel,
    avoid: Option<SocketAddrV6>,
    now: int,
    k: int,
)
    requires
        m.wf(),
        0 <= k <= m.candidates.len(),
        forall|j: int|
            0 <= j < k ==> avoid is Some && #[trigger] m.candidates[j] == candidates::normal(
                avoid->Some_0,
            ),
        k < m.candidates.len() ==> avoid is None || m.candidates[k] != candidates::normal(
            avoid->Some_0,
        ),
    ensures
        ({
            let (m1, to) = m.left(avoid, now);
            if m.state is Connected && k < m.candidates.len() {
                &&& to == Some(m.candidates[k])
                &&& m1.state is Probing
                &&& m1.state->candidate_index == k
                &&& m1.state->rounds == 0
                &&& m1.last_transition == now
                &&& m1.candidates == m.candidates
            } else {
                m1 == m && to is None
            }
        }),
{
    match avoid {
        Some(a) => {
            let other = |ep: SocketAddrV6| ep != candidates::normal(a);
            assert forall|j: int| 0 <= j < k implies !other(#[trigger] m.candidates[j]) by {}
            seqs::lemma_first_where_is(m.candidates, other, k);
        },
        None => {
            if k > 0 {
                assert(m.candidates[0] == candidates::normal(avoid->Some_0));
            }
        },
    }
}

/// Trying an endpoint sets it and nudges; entering a peer anew drops its session
/// first.
pub proof fn law_moving_actions(ep: SocketAddrV6)
    ensures
        try_actions(ep).len() == 2,
        try_actions(ep)[0] == Action::SetEndpoint(ep),
        try_actions(ep)[1] == Action::Nudge,
        flush_actions(ep).len() == 2,
        flush_actions(ep)[0] == Action::Rehandshake(ep),
        flush_actions(ep)[1] == Action::Nudge,
{
}

} // verus!
