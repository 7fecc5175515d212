//! When to use a relay, and when to leave it.

use super::effects::{self, apply_actions, Effect};
use super::peer::{
    self, candidates_for, find_peer, CacheModel, LinkModel, PeerModel, PeerRuntime, RelayLink,
};
use crate::addr::SocketAddrV6;
use crate::cache::EndpointCache;
use crate::candidates;
use crate::fsm::{self, Action, PunchState};
use crate::relay_client::{self, RelaySession};
use crate::seqs;
use crate::state::{self, unix_secs};
use crate::time::{self, Instant, SystemTime};
use vstd::prelude::*;

verus! {

/// What to do about a relay.
#[derive(Clone, Copy, PartialEq, Eq, Debug, Structural)]
pub enum RelayCommand {
    /// Nothing.
    Nothing,
    /// Register with the peer's relay, in the background.
    Register,
    /// Close this session.
    Unregister(RelaySession),
}

/// What a look at a peer's relay led to.
#[derive(Debug)]
pub struct RelayDrive {
    /// What the state machine asks for.
    pub actions: Vec<Action>,
    /// What to do about the relay.
    pub command: RelayCommand,
}

/// The outcome of a registration.
#[derive(Debug)]
pub struct RelayRegistered {
    /// The base64 of the peer's key.
    pub peer_key: String,
    /// The session, or nothing when the relay did not answer.
    pub session: Option<RelaySession>,
}

impl LinkModel {
    /// Whether the session is due to be renewed.
    pub open spec fn due(self, now: int) -> bool {
        match self.last_register {
            Some(t) => time::elapsed(now, t) >= relay_client::REGISTER_INTERVAL,
            None => true,
        }
    }

    /// Whether a failed registration is too recent to try again.
    pub open spec fn cooling(self, now: int) -> bool {
        match self.retry_after {
            Some(t) => now < t,
            None => false,
        }
    }

    /// Whether to renew the session of a connection that runs over it.
    pub open spec fn renews(self, now: int) -> bool {
        self.due(now) && !self.pending && !self.cooling(now)
    }

    /// Whether to register while the peer is not connected: not while an
    /// attempt at a direct connection or a registration is under way, nor
    /// shortly after a failure; a session that is there only when it is due,
    /// and a first one only after the direct candidates had their chance.
    pub open spec fn registers(self, rounds: u32, now: int) -> bool {
        &&& !self.upgrade_pending
        &&& !self.pending
        &&& !self.cooling(now)
        &&& if self.session is Some {
            self.due(now)
        } else {
            rounds >= peer::RELAY_AFTER_ROUNDS
        }
    }

    /// The link without its session.
    pub open spec fn released(self) -> LinkModel {
        LinkModel {
            session: None,
            upgrade_pending: false,
            upgrade_retries: 0,
            last_register: None,
            retry_after: None,
            ..self
        }
    }
}

impl PeerModel {
    /// The peer with another link.
    pub open spec fn with_link(self, link: LinkModel) -> PeerModel {
        PeerModel { relay: Some(link), ..self }
    }

    /// The peer after its candidates were computed anew, and what its state
    /// machine asks for.
    pub open spec fn recomputed(self, cache: CacheModel, wall: int) -> (PeerModel, Seq<Action>) {
        let (f, actions) = self.fsm.with_candidates(self.candidates(cache), wall);
        (PeerModel { fsm: f, ..self }, actions)
    }

    /// The peer after its state machine was told to leave its connection for a
    /// candidate other than `avoid`, and where it goes.
    pub open spec fn sent_away(self, avoid: SocketAddrV6, wall: int) -> (
        PeerModel,
        Option<SocketAddrV6>,
    ) {
        let (f, to) = self.fsm.left(Some(avoid), wall);
        (PeerModel { fsm: f, ..self }, to)
    }
}

/// The actions that follow from leaving for `to`, with the session dropped.
pub open spec fn flush_to(to: Option<SocketAddrV6>) -> Seq<Action> {
    match to {
        Some(ep) => fsm::flush_actions(ep),
        None => seq![],
    }
}

/// The actions that follow from leaving for `to`.
pub open spec fn move_to(to: Option<SocketAddrV6>) -> Seq<Action> {
    match to {
        Some(ep) => fsm::try_actions(ep),
        None => seq![],
    }
}

/// A peer whose connection runs over its relay session `s`, after a look at
/// the relay.
pub open spec fn kept_on_relay(
    p: PeerModel,
    link: LinkModel,
    s: RelaySession,
    cache: CacheModel,
    now: int,
    wall: int,
) -> (PeerModel, Seq<Action>, RelayCommand) {
    let command = if link.renews(now) {
        RelayCommand::Register
    } else {
        RelayCommand::Nothing
    };
    let renewed = LinkModel { pending: link.pending || link.renews(now), ..link };
    if link.upgrade_pending && link.upgrade_retries < peer::UPGRADE_MAX_RETRIES {
        // The attempt failed: try again, with the old session dropped.
        let p1 = p.with_link(
            LinkModel { upgrade_retries: (link.upgrade_retries + 1) as u32, ..renewed },
        );
        let (p2, to) = p1.recomputed(cache, wall).0.sent_away(s.endpoint, wall);
        (p2, flush_to(to), command)
    } else if link.upgrade_pending {
        // Enough attempts: stay with the relay.
        let p1 = p.with_link(
            LinkModel { upgrade_pending: false, upgrade_retries: 0, ..renewed },
        );
        (p1.recomputed(cache, wall).0, seq![], command)
    } else {
        (p.with_link(renewed), seq![], command)
    }
}

/// A peer after a look at its relay at `now` by the monotonic clock and `wall`
/// by the wall clock, what its state machine asks for, and what to do about
/// the relay.
pub open spec fn driven(p: PeerModel, cache: CacheModel, now: int, wall: int) -> (
    PeerModel,
    Seq<Action>,
    RelayCommand,
) {
    match p.relay {
        None => (p, seq![], RelayCommand::Nothing),
        Some(link) => if link.control.len() == 0 {
            (p, seq![], RelayCommand::Nothing)
        } else {
            match (p.fsm.state, link.session) {
                (PunchState::Connected { .. }, None) => (p, seq![], RelayCommand::Nothing),
                (PunchState::Connected { endpoint }, Some(s)) => if endpoint == s.endpoint {
                    kept_on_relay(p, link, s, cache, now, wall)
                } else {
                    // Connected directly: the relay is no longer needed.
                    (
                        p.with_link(link.released()).recomputed(cache, wall).0,
                        seq![],
                        RelayCommand::Unregister(s),
                    )
                },
                (PunchState::Probing { rounds, .. }, _) => if link.registers(rounds, now) {
                    (
                        p.with_link(LinkModel { pending: true, ..link }),
                        seq![],
                        RelayCommand::Register,
                    )
                } else {
                    (p, seq![], RelayCommand::Nothing)
                },
            }
        },
    }
}

impl RelayLink {
    fn is_due(&self, now: Instant) -> (yes: bool)
        ensures
            yes == self@.due(now@),
    {
        match self.last_register {
            Some(t) => now.nanos_since(t) >= relay_client::REGISTER_INTERVAL,
            None => true,
        }
    }

    fn is_cooling(&self, now: Instant) -> (yes: bool)
        ensures
            yes == self@.cooling(now@),
    {
        match self.retry_after {
            Some(t) => now.nanos < t.nanos,
            None => false,
        }
    }
}

/// Computes a peer's candidates anew and hands them to its state machine.
pub fn recompute(peer: &mut PeerRuntime, cache: &EndpointCache, wall: SystemTime) -> (actions: Vec<
    Action,
>)
    requires
        cache.wf(),
        old(peer)@.fsm.wf(),
    ensures
        (final(peer)@, actions@) == old(peer)@.recomputed(cache@, wall@),
        final(peer)@.fsm.wf(),
{
    let list = candidates_for(peer, cache);
    peer.fsm.set_candidates(list, wall)
}

/// Looks at a peer's relay: registers when the direct candidates had their
/// chance, renews the session, closes it once there is a direct connection,
/// and repeats attempts at one.
pub fn drive_relay(
    peer: &mut PeerRuntime,
    cache: &EndpointCache,
    now: Instant,
    wall: SystemTime,
) -> (drive: RelayDrive)
    requires
        cache.wf(),
        old(peer)@.fsm.wf(),
    ensures
        (final(peer)@, drive.actions@, drive.command) == driven(
            old(peer)@,
            cache@,
            now@,
            wall@,
        ),
        final(peer)@.fsm.wf(),
{
    let punch = peer.fsm.state();
    let mut link = match peer.relay.take() {
        Some(l) => l,
        None => {
            return RelayDrive { actions: Vec::new(), command: RelayCommand::Nothing };
        },
    };
    if link.control.is_empty() {
        peer.relay = Some(link);
        return RelayDrive { actions: Vec::new(), command: RelayCommand::Nothing };
    }
    match punch {
        PunchState::Connected { endpoint } => {
            let session = match link.session {
                Some(s) => s,
                None => {
                    peer.relay = Some(link);
                    return RelayDrive { actions: Vec::new(), command: RelayCommand::Nothing };
                },
            };
            if endpoint != session.endpoint {
                link.session = None;
                link.upgrade_pending = false;
                link.upgrade_retries = 0;
                link.last_register = None;
                link.retry_after = None;
                peer.relay = Some(link);
                let _ = recompute(peer, cache, wall);
                return RelayDrive {
                    actions: Vec::new(),
                    command: RelayCommand::Unregister(session),
                };
            }
            let renews = link.is_due(now) && !link.pending && !link.is_cooling(now);
            let command = if renews {
                RelayCommand::Register
            } else {
                RelayCommand::Nothing
            };
            if renews {
                link.pending = true;
            }
            if link.upgrade_pending {
                if link.upgrade_retries < peer::UPGRADE_MAX_RETRIES {
                    link.upgrade_retries = link.upgrade_retries + 1;
                    peer.relay = Some(link);
                    let _ = recompute(peer, cache, wall);
                    let actions = peer.fsm.retry_from_flush(Some(session.endpoint), wall);
                    return RelayDrive { actions, command };
                }
                link.upgrade_pending = false;
                link.upgrade_retries = 0;
                peer.relay = Some(link);
                let _ = recompute(peer, cache, wall);
                return RelayDrive { actions: Vec::new(), command };
            }
            peer.relay = Some(link);
            RelayDrive { actions: Vec::new(), command }
        },
        PunchState::Probing { candidate_index: _, rounds } => {
            let registers = !link.upgrade_pending && !link.pending && !link.is_cooling(now)
                && (if link.session.is_some() {
                link.is_due(now)
            } else {
                rounds >= peer::RELAY_AFTER_ROUNDS
            });
            if registers {
                link.pending = true;
            }
            peer.relay = Some(link);
            RelayDrive {
                actions: Vec::new(),
                command: if registers {
                    RelayCommand::Register
                } else {
                    RelayCommand::Nothing
                },
            }
        },
    }
}

/// A peer after a registration came back, and what its state machine asks
/// for.
///
/// When the relay gave the session another port, a connection over the old one
/// moves to the new one at once; otherwise it would look like a direct
/// connection, and the new session would be closed.
pub open spec fn registered(
    p: PeerModel,
    outcome: Option<RelaySession>,
    cache: CacheModel,
    now: int,
    wall: int,
) -> (PeerModel, Seq<Action>) {
    match (p.relay, outcome) {
        (None, _) => (p, seq![]),
        (Some(link), None) => (
            p.with_link(
                LinkModel {
                    pending: false,
                    retry_after: Some(cooldown_end(now)),
                    ..link
                },
            ),
            seq![],
        ),
        (Some(link), Some(s)) => {
            let renewed = LinkModel {
                pending: false,
                last_register: Some(now),
                retry_after: None,
                ..link
            };
            if link.session == Some(s) {
                (p.with_link(renewed), seq![])
            } else {
                let (p1, first) = p.with_link(LinkModel { session: Some(s), ..renewed }).recomputed(
                    cache,
                    wall,
                );
                match (link.session, p1.fsm.state) {
                    (Some(prev), PunchState::Connected { endpoint }) => if endpoint
                        == prev.endpoint {
                        let (p2, to) = p1.sent_away(prev.endpoint, wall);
                        (p2, first + move_to(to))
                    } else {
                        (p1, first)
                    },
                    _ => (p1, first),
                }
            }
        },
    }
}

/// When a registration that failed at `now` may be repeated.
pub open spec fn cooldown_end(now: int) -> int {
    if now + peer::RELAY_RETRY_COOLDOWN > u64::MAX {
        u64::MAX as int
    } else {
        now + peer::RELAY_RETRY_COOLDOWN
    }
}

fn take_registration(
    peer: &mut PeerRuntime,
    cache: &EndpointCache,
    outcome: Option<RelaySession>,
    now: Instant,
    wall: SystemTime,
) -> (actions: Vec<Action>)
    requires
        cache.wf(),
        old(peer)@.fsm.wf(),
    ensures
        (final(peer)@, actions@) == registered(old(peer)@, outcome, cache@, now@, wall@),
        final(peer)@.fsm.wf(),
{
    let mut link = match peer.relay.take() {
        Some(l) => l,
        None => {
            return Vec::new();
        },
    };
    link.pending = false;
    let session = match outcome {
        Some(s) => s,
        None => {
            link.retry_after = Some(now.plus(peer::RELAY_RETRY_COOLDOWN));
            peer.relay = Some(link);
            return Vec::new();
        },
    };
    link.last_register = Some(now);
    link.retry_after = None;
    let previous = link.session;
    if previous == Some(session) {
        peer.relay = Some(link);
        return Vec::new();
    }
    link.session = Some(session);
    peer.relay = Some(link);
    let mut actions = recompute(peer, cache, wall);
    if let Some(prev) = previous {
        if let PunchState::Connected { endpoint } = peer.fsm.state() {
            if endpoint == prev.endpoint {
                let mut more = peer.fsm.retry_from(Some(prev.endpoint), wall);
                actions.append(&mut more);
            }
        }
    }
    actions
}

/// Takes the outcome of a registration. That of a peer that is no longer there
/// is ignored.
pub fn on_relay_registered(
    peers: &mut Vec<PeerRuntime>,
    cache: &mut EndpointCache,
    done: RelayRegistered,
    now: Instant,
    wall: SystemTime,
) -> (effects: Vec<Effect>)
    requires
        old(cache).wf(),
        peer::all_wf(old(peers)@),
    ensures
        final(cache).wf(),
        final(cache).version == old(cache).version,
        peer::all_wf(final(peers)@),
        ({
            let before = peer::peer_models(old(peers)@);
            let k = peer::peer_index(before, done.peer_key@);
            if k < before.len() {
                let (p, actions) = registered(
                    before[k],
                    done.session,
                    old(cache)@,
                    now@,
                    wall@,
                );
                &&& peer::peer_models(final(peers)@) == before.update(k, p)
                &&& (final(cache)@, effects::effect_models(effects@)) == effects::all_performed(
                    p,
                    old(cache)@,
                    actions,
                    state::seconds(wall@) as u64,
                )
            } else {
                &&& peer::peer_models(final(peers)@) == before
                &&& final(cache)@ == old(cache)@
                &&& effects@.len() == 0
            }
        }),
{
    let ghost before = peer::peer_models(peers@);
    let k = find_peer(peers.as_slice(), &done.peer_key);
    if k >= peers.len() {
        return Vec::new();
    }
    assert(before[k as int] == peers@[k as int]@);
    let actions = take_registration(&mut peers[k], cache, done.session, now, wall);
    assert(peer::peer_models(peers@) =~= before.update(k as int, peers@[k as int]@));
    apply_actions(cache, &peers[k], actions.as_slice(), unix_secs(wall))
}

/// A look at the relay changes nothing of a peer but its link and its state
/// machine.
pub proof fn law_drive_changes_link_only(p: PeerModel, cache: CacheModel, now: int, wall: int)
    ensures
        driven(p, cache, now, wall).0 == (PeerModel {
            relay: driven(p, cache, now, wall).0.relay,
            fsm: driven(p, cache, now, wall).0.fsm,
            ..p
        }),
{
}

/// Direct candidates get their chance: as long as they have not all been tried
/// often enough, a peer without a session is not registered with a relay.
pub proof fn law_direct_gets_its_chance(p: PeerModel, cache: CacheModel, now: int, wall: int)
    requires
        p.session() is None,
        p.fsm.state is Probing,
        p.fsm.state->rounds < peer::RELAY_AFTER_ROUNDS,
    ensures
        driven(p, cache, now, wall) == (p, Seq::<Action>::empty(), RelayCommand::Nothing),
{
}

/// A direct connection ends the use of a relay: the session is given up and
/// its closing is asked for.
pub proof fn law_direct_ends_relay(p: PeerModel, cache: CacheModel, now: int, wall: int)
    requires
        p.relay is Some,
        p.relay->Some_0.control.len() > 0,
        p.session() is Some,
        p.fsm.state is Connected,
        p.fsm.state->endpoint != p.session()->Some_0.endpoint,
    ensures
        driven(p, cache, now, wall).0.session() is None,
        driven(p, cache, now, wall).0.fsm.state == p.fsm.state,
        driven(p, cache, now, wall).2 == RelayCommand::Unregister(p.session()->Some_0),
{
}

/// Registrations never overlap: while one is under way no other is started.
pub proof fn law_one_registration_at_a_time(p: PeerModel, cache: CacheModel, now: int, wall: int)
    requires
        p.relay is Some,
        p.relay->Some_0.pending,
    ensures
        driven(p, cache, now, wall).2 != RelayCommand::Register,
{
}

/// No registration is started shortly after one failed, and one that is
/// started counts as under way.
pub proof fn law_cooldown_respected(p: PeerModel, cache: CacheModel, now: int, wall: int)
    requires
        p.relay is Some,
    ensures
        p.relay->Some_0.cooling(now) ==> driven(p, cache, now, wall).2 != RelayCommand::Register,
        driven(p, cache, now, wall).2 == RelayCommand::Register ==> driven(
            p,
            cache,
            now,
            wall,
        ).0.relay is Some && driven(p, cache, now, wall).0.relay->Some_0.pending,
{
}

/// Attempts at a direct connection are repeated only so often: the count never
/// goes beyond its limit, and at the limit the attempt is over.
pub proof fn law_upgrade_attempts_bounded(p: PeerModel, cache: CacheModel, now: int, wall: int)
    requires
        p.relay is Some,
        p.relay->Some_0.upgrade_retries <= peer::UPGRADE_MAX_RETRIES,
    ensures
        driven(p, cache, now, wall).0.relay is Some,
        driven(p, cache, now, wall).0.relay->Some_0.upgrade_retries <= peer::UPGRADE_MAX_RETRIES,
        (p.relayed_via() is Some && p.relay->Some_0.control.len() > 0
            && p.relay->Some_0.upgrade_retries == peer::UPGRADE_MAX_RETRIES) ==> !driven(
            p,
            cache,
            now,
            wall,
        ).0.relay->Some_0.upgrade_pending,
{
}

/// After a registration succeeded, the session is the one that the relay gave,
/// and nothing is under way.
pub proof fn law_registration_gives_session(
    p: PeerModel,
    s: RelaySession,
    cache: CacheModel,
    now: int,
    wall: int,
)
    requires
        p.relay is Some,
    ensures
        registered(p, Some(s), cache, now, wall).0.session() == Some(s),
        !registered(p, Some(s), cache, now, wall).0.relay->Some_0.pending,
{
}

/// When a registration is asked for: there is a relay that can be asked, no
/// registration is under way, and none failed too recently. A connection over
/// the session renews it every 30 seconds; a peer that is not connected, with no
/// attempt at a direct connection under way, renews its session as often, and
/// opens one after all candidates were tried twice.
pub proof fn law_registers_exactly_when_due(p: PeerModel, cache: CacheModel, now: int, wall: int)
    ensures
        driven(p, cache, now, wall).2 == RelayCommand::Register <==> {
            &&& p.relay is Some
            &&& p.relay->Some_0.control.len() > 0
            &&& !p.relay->Some_0.pending
            &&& p.relay->Some_0.retry_after is None || now >= p.relay->Some_0.retry_after->Some_0
            &&& ({
                let l = p.relay->Some_0;
                let due = l.last_register is None || now - l.last_register->Some_0
                    >= 30_000_000_000;
                match p.fsm.state {
                    PunchState::Connected { endpoint } => l.session is Some
                        && l.session->Some_0.endpoint == endpoint && due,
                    PunchState::Probing { rounds, .. } => !l.upgrade_pending && (
                    if l.session is Some {
                        due
                    } else {
                        rounds >= 2
                    }),
                }
            })
        },
{
}

/// A session is closed exactly when the connection runs elsewhere.
pub proof fn law_unregisters_exactly_when_direct(
    p: PeerModel,
    cache: CacheModel,
    now: int,
    wall: int,
    s: RelaySession,
)
    ensures
        driven(p, cache, now, wall).2 == RelayCommand::Unregister(s) <==> {
            &&& p.relay is Some
            &&& p.relay->Some_0.control.len() > 0
            &&& p.relay->Some_0.session == Some(s)
            &&& p.fsm.state is Connected
            &&& p.fsm.state->endpoint != s.endpoint
        },
{
}

/// Asking for a registration marks it as under way, and changes nothing else of
/// the link while the peer is not connected.
pub proof fn law_registration_is_under_way(p: PeerModel, cache: CacheModel, now: int, wall: int)
    requires
        p.relay is Some,
        p.fsm.state is Probing,
    ensures
        ({
            let (p1, actions, command) = driven(p, cache, now, wall);
            &&& actions.len() == 0
            &&& p1.fsm == p.fsm
            &&& p1.relay == Some(
                LinkModel {
                    pending: p.relay->Some_0.pending || command == RelayCommand::Register,
                    ..p.relay->Some_0
                },
            )
        }),
{
    let l = p.relay->Some_0;
    assert(LinkModel { pending: l.pending, ..l } == l);
}

/// Once the connection is direct, nothing of the session is left, and the
/// candidates are direct ones again.
pub proof fn law_direct_connection_clears_the_link(
    p: PeerModel,
    cache: CacheModel,
    now: int,
    wall: int,
)
    requires
        p.relay is Some,
        p.relay->Some_0.control.len() > 0,
        p.relay->Some_0.session is Some,
        p.fsm.state is Connected,
        p.fsm.state->endpoint != p.relay->Some_0.session->Some_0.endpoint,
    ensures
        ({
            let (p1, actions, _) = driven(p, cache, now, wall);
            &&& actions.len() == 0
            &&& p1.fsm.state == p.fsm.state
            &&& p1.relay == Some(
                LinkModel {
                    via_name: p.relay->Some_0.via_name,
                    control: p.relay->Some_0.control,
                    peer_public: p.relay->Some_0.peer_public,
                    session: None,
                    pending: p.relay->Some_0.pending,
                    upgrade_pending: false,
                    upgrade_retries: 0,
                    last_register: None,
                    retry_after: None,
                },
            )
            &&& p1.fsm.candidates == p.fsm.with_candidates(p1.candidates(cache), wall).0.candidates
        }),
{
}

/// A connection over the relay without an attempt at a direct one stays as it
/// is, apart from the renewal.
pub proof fn law_relayed_connection_stays(p: PeerModel, cache: CacheModel, now: int, wall: int)
    requires
        p.relay is Some,
        p.relay->Some_0.session is Some,
        p.fsm.state == (PunchState::Connected {
            endpoint: p.relay->Some_0.session->Some_0.endpoint,
        }),
        !p.relay->Some_0.upgrade_pending,
    ensures
        ({
            let (p1, actions, command) = driven(p, cache, now, wall);
            &&& actions.len() == 0
            &&& p1.fsm == p.fsm
            &&& p1.relay == Some(
                LinkModel {
                    pending: p.relay->Some_0.pending || command == RelayCommand::Register,
                    ..p.relay->Some_0
                },
            )
        }),
{
    let l = p.relay->Some_0;
    assert(LinkModel { pending: l.pending, ..l } == l);
}

/// An attempt at a direct connection that came back to the relay is repeated up
/// to eight times: it counts, and where there is a direct candidate the peer is
/// entered anew with it. After that the relay is kept and stands alone.
pub proof fn law_attempt_is_repeated(p: PeerModel, cache: CacheModel, now: int, wall: int)
    requires
        p.fsm.wf(),
        p.relay is Some,
        p.relay->Some_0.control.len() > 0,
        p.relay->Some_0.session is Some,
        p.fsm.state == (PunchState::Connected {
            endpoint: p.relay->Some_0.session->Some_0.endpoint,
        }),
        p.relay->Some_0.upgrade_pending,
    ensures
        ({
            let l = p.relay->Some_0;
            let at = l.session->Some_0.endpoint;
            let (p1, actions, _) = driven(p, cache, now, wall);
            &&& p1.relay is Some
            &&& p1.relay->Some_0.session == l.session
            &&& l.upgrade_retries < 8 ==> {
                &&& p1.relay->Some_0.upgrade_pending
                &&& p1.relay->Some_0.upgrade_retries == l.upgrade_retries + 1
                &&& (exists|i: int|
                    0 <= i < p1.fsm.candidates.len() && #[trigger] p1.fsm.candidates[i] != at)
                    ==> {
                    &&& p1.fsm.state is Probing
                    &&& p1.fsm.last_transition == wall
                    &&& p1.fsm.current() is Some
                    &&& p1.fsm.current()->Some_0 != at
                    &&& actions == seq![
                        Action::Rehandshake(p1.fsm.current()->Some_0),
                        Action::Nudge,
                    ]
                }
            }
            &&& l.upgrade_retries >= 8 ==> {
                &&& !p1.relay->Some_0.upgrade_pending
                &&& p1.relay->Some_0.upgrade_retries == 0
                &&& p1.fsm.state == p.fsm.state
                &&& p1.fsm.candidates == seq![at]
                &&& actions.len() == 0
            }
        }),
{
    let l = p.relay->Some_0;
    let at = l.session->Some_0.endpoint;
    let (p1, actions, _) = driven(p, cache, now, wall);
    if l.upgrade_retries < 8 {
        let list = p1.fsm.candidates;
        let other = |x: SocketAddrV6| x != candidates::normal(at);
        seqs::lemma_first_where(list, other);
        candidates::law_candidates_bounded_and_distinct(
            p.ranked(cache),
            p.session_endpoint(),
        );
        let q = p.with_link(
            LinkModel {
                upgrade_retries: (l.upgrade_retries + 1) as u32,
                pending: l.pending || l.renews(now),
                ..l
            },
        );
        assert(q.ranked(cache) == p.ranked(cache));
        seqs::lemma_first_distinct(candidates::normals(q.candidates(cache)));
        if exists|i: int| 0 <= i < list.len() && #[trigger] list[i] != at {
            let i = choose|i: int| 0 <= i < list.len() && #[trigger] list[i] != at;
            assert(other(list[i]));
            assert(other(list[seqs::first_where(list, other)]));
        }
    } else {
        let n = candidates::normals(seq![at]);
        reveal_with_fuel(seqs::first_distinct, 2);
        assert(n =~= seq![at]);
        assert(n.drop_last() =~= seq![]);
        assert(seqs::first_distinct(n) =~= seq![at]);
        assert(p1.fsm.candidates == seqs::first_distinct(n));
    }
}

/// A registration that failed leaves the session as it is, and until 60 seconds
/// later no other is asked for, whatever happens to the peer's state machine.
pub proof fn law_failure_is_waited_out(
    p: PeerModel,
    cache: CacheModel,
    now: int,
    wall: int,
    later: int,
    f: fsm::FsmModel,
)
    requires
        p.relay is Some,
        0 <= now,
        now + 60_000_000_000 <= u64::MAX,
        later < now + 60_000_000_000,
    ensures
        ({
            let (p1, actions) = registered(p, None, cache, now, wall);
            let l = p.relay->Some_0;
            &&& actions.len() == 0
            &&& p1 == (PeerModel {
                relay: Some(
                    LinkModel {
                        pending: false,
                        retry_after: Some(now + 60_000_000_000),
                        ..l
                    },
                ),
                ..p
            })
            &&& driven(PeerModel { fsm: f, ..p1 }, cache, later, wall).2 != RelayCommand::Register
        }),
{
}

/// A registration that succeeded: the session is the relay's, it counts as
/// renewed now, and nothing else of the link changes.
pub proof fn law_success_is_noted(
    p: PeerModel,
    s: RelaySession,
    cache: CacheModel,
    now: int,
    wall: int,
)
    requires
        p.relay is Some,
    ensures
        registered(p, Some(s), cache, now, wall).0.relay == Some(
            LinkModel {
                session: Some(s),
                pending: false,
                last_register: Some(now),
                retry_after: None,
                ..p.relay->Some_0
            },
        ),
        p.relay->Some_0.session == Some(s) ==> registered(p, Some(s), cache, now, wall).0.fsm
            == p.fsm && registered(p, Some(s), cache, now, wall).1.len() == 0,
        registered(p, Some(s), cache, now, wall).0.key == p.key,
        registered(p, Some(s), cache, now, wall).0.discovered == p.discovered,
        registered(p, Some(s), cache, now, wall).0.configured == p.configured,
{
    let l = p.relay->Some_0;
    if l.session == Some(s) {
        assert(LinkModel { session: Some(s), ..l } == l);
    }
}

/// A new session is used at once: without an attempt at a direct connection the
/// relay is the only candidate. A peer that is not connected tries it, and a
/// connection over the session that it replaces moves to it.
pub proof fn law_new_session_is_used(
    p: PeerModel,
    s: RelaySession,
    cache: CacheModel,
    now: int,
    wall: int,
)
    requires
        p.fsm.wf(),
        p.relay is Some,
        p.relay->Some_0.session != Some(s),
        !p.relay->Some_0.upgrade_pending,
        s.endpoint == candidates::normal(s.endpoint),
    ensures
        ({
            let (p1, actions) = registered(p, Some(s), cache, now, wall);
            let old_session = p.relay->Some_0.session;
            &&& p1.fsm.candidates == seq![s.endpoint]
            &&& p.fsm.state is Probing ==> p1.fsm.state is Probing && p1.fsm.current() == Some(
                s.endpoint,
            )
            &&& p.fsm.state is Probing && p.fsm.current() != Some(s.endpoint) ==> actions == seq![
                Action::SetEndpoint(s.endpoint),
                Action::Nudge,
            ]
            &&& p.fsm.state is Connected && old_session is Some && old_session->Some_0.endpoint
                == p.fsm.state->endpoint && old_session->Some_0.endpoint != s.endpoint ==> {
                &&& p1.fsm.state is Probing
                &&& p1.fsm.current() == Some(s.endpoint)
                &&& actions == seq![Action::SetEndpoint(s.endpoint), Action::Nudge]
            }
        }),
{
    let l = p.relay->Some_0;
    let e = s.endpoint;
    let one = seq![e];
    let n = candidates::normals(one);
    reveal_with_fuel(seqs::first_distinct, 2);
    assert(n =~= one);
    assert(n.drop_last() =~= seq![]);
    let next = seqs::first_distinct(n);
    assert(next =~= one);
    let is_new = |ep: SocketAddrV6| !p.fsm.candidates.contains(ep);
    let is_same = |ep: SocketAddrV6| p.fsm.current() == Some(ep);
    seqs::lemma_first_where(next, is_new);
    seqs::lemma_first_where(next, is_same);
    let renewed = LinkModel {
        pending: false,
        last_register: Some(now),
        retry_after: None,
        ..l
    };
    let q = p.with_link(LinkModel { session: Some(s), ..renewed });
    assert(q.candidates(cache) == one);
    let (p1, first) = q.recomputed(cache, wall);
    assert(p1.fsm.candidates == next);
    match (p.fsm.state, l.session) {
        (PunchState::Connected { endpoint }, Some(prev)) => {
            if endpoint == prev.endpoint && prev.endpoint != e {
                let other = |x: SocketAddrV6| x != candidates::normal(prev.endpoint);
                assert(other(next[0]));
                seqs::lemma_first_where_is(next, other, 0);
                assert(first =~= seq![]);
                assert(Seq::<Action>::empty() + fsm::try_actions(e) =~= fsm::try_actions(e));
            }
        },
        (PunchState::Probing { candidate_index, rounds }, _) => {
            if next == p.fsm.candidates {
                assert(p.fsm.candidates.contains(e));
                assert(candidate_index == 0);
            } else {
                assert(p.fsm.pointed(next) == 0);
            }
        },
        _ => {},
    }
}

} // verus!
