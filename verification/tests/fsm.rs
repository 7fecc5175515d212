//! The state machine that finds a way to a peer.

use hextet::addr::{Ipv6Addr, SocketAddrV6};
use hextet::fsm::{handshake_is_fresh, Action, Observation, PeerFsm, PunchState};
use hextet::time::SystemTime;

fn ip(s: &str) -> Ipv6Addr {
    let (head, tail) = s.split_once("::").unwrap_or((s, ""));
    let groups = |t: &str| -> Vec<u128> {
        t.split(':')
            .filter(|g| !g.is_empty())
            .map(|g| u128::from_str_radix(g, 16).unwrap())
            .collect()
    };
    let mut bits: u128 = 0;
    for (i, g) in groups(head).iter().enumerate() {
        bits |= g << (112 - 16 * i);
    }
    for (i, g) in groups(tail).iter().rev().enumerate() {
        bits |= g << (16 * i);
    }
    Ipv6Addr::new(bits)
}

fn ep(s: &str) -> SocketAddrV6 {
    let (host, port) = s.rsplit_once(':').unwrap();
    let host = host.trim_start_matches('[').trim_end_matches(']');
    SocketAddrV6::new(ip(host), port.parse().unwrap(), 0, 0)
}

fn plus(t: SystemTime, millis: i128) -> SystemTime {
    let nanos = t.unix_nanos() + millis * 1_000_000;
    SystemTime::new(
        nanos.div_euclid(1_000_000_000) as i64,
        nanos.rem_euclid(1_000_000_000) as u32,
    )
}

fn t0() -> SystemTime {
    SystemTime::new(1_700_000_000, 0)
}

fn three() -> Vec<SocketAddrV6> {
    vec![
        ep("[2001:db8::1]:4193"),
        ep("[2001:db8::2]:4193"),
        ep("[2001:db8::3]:4193"),
    ]
}

fn cold() -> Observation {
    Observation {
        last_handshake: None,
        kernel_endpoint: None,
    }
}

#[test]
fn starts_in_probing_at_first_candidate() {
    let fsm = PeerFsm::new(three(), t0());
    assert_eq!(
        fsm.state(),
        PunchState::Probing {
            candidate_index: 0,
            rounds: 0
        }
    );
    assert_eq!(fsm.current_candidate(), Some(ep("[2001:db8::1]:4193")));
    assert_eq!(fsm.candidates_len(), 3);
}

#[test]
fn kick_sets_current_candidate_and_nudges() {
    let mut fsm = PeerFsm::new(three(), t0());
    let actions = fsm.kick(t0());
    assert_eq!(
        actions,
        vec![Action::SetEndpoint(ep("[2001:db8::1]:4193")), Action::Nudge]
    );
}

#[test]
fn probing_does_nothing_before_rotate_interval() {
    let mut fsm = PeerFsm::new(three(), t0());
    let _ = fsm.kick(t0());
    let actions = fsm.tick(plus(t0(), 2_400), cold());
    assert!(actions.is_empty(), "got {actions:?}");
    assert_eq!(
        fsm.state(),
        PunchState::Probing {
            candidate_index: 0,
            rounds: 0
        }
    );
}

#[test]
fn probing_rotates_to_next_candidate_after_interval() {
    let mut fsm = PeerFsm::new(three(), t0());
    let _ = fsm.kick(t0());
    let actions = fsm.tick(plus(t0(), 2_600), cold());
    assert_eq!(
        actions,
        vec![Action::SetEndpoint(ep("[2001:db8::2]:4193")), Action::Nudge]
    );
    assert_eq!(
        fsm.state(),
        PunchState::Probing {
            candidate_index: 1,
            rounds: 0
        }
    );
}

#[test]
fn rotation_wraps_and_counts_rounds() {
    let mut fsm = PeerFsm::new(three(), t0());
    let _ = fsm.kick(t0());
    let mut now = t0();
    for expected in [1usize, 2, 0] {
        now = plus(now, 2_600);
        let _ = fsm.tick(now, cold());
        match fsm.state() {
            PunchState::Probing {
                candidate_index, ..
            } => assert_eq!(candidate_index, expected),
            other => panic!("expected Probing, got {other:?}"),
        }
    }
    assert_eq!(
        fsm.state(),
        PunchState::Probing {
            candidate_index: 0,
            rounds: 1
        }
    );
}

#[test]
fn single_candidate_keeps_re_nudging_same_endpoint() {
    let mut fsm = PeerFsm::new(vec![ep("[2001:db8::1]:4193")], t0());
    let _ = fsm.kick(t0());
    let actions = fsm.tick(plus(t0(), 2_600), cold());
    assert_eq!(
        actions,
        vec![Action::SetEndpoint(ep("[2001:db8::1]:4193")), Action::Nudge]
    );
}

#[test]
fn fresh_handshake_transitions_to_connected_and_marks_good() {
    let mut fsm = PeerFsm::new(three(), t0());
    let _ = fsm.kick(t0());
    let now = plus(t0(), 3_000);
    let actions = fsm.tick(
        now,
        Observation {
            last_handshake: Some(plus(now, -1_000)),
            kernel_endpoint: Some(ep("[2001:db8::2]:4193")),
        },
    );
    assert_eq!(actions, vec![Action::MarkGood(ep("[2001:db8::2]:4193"))]);
    assert_eq!(
        fsm.state(),
        PunchState::Connected {
            endpoint: ep("[2001:db8::2]:4193")
        }
    );
}

#[test]
fn connected_is_quiet_while_handshake_stays_fresh() {
    let mut fsm = PeerFsm::new(three(), t0());
    let now = plus(t0(), 3_000);
    let _ = fsm.tick(
        now,
        Observation {
            last_handshake: Some(now),
            kernel_endpoint: Some(ep("[2001:db8::1]:4193")),
        },
    );
    let actions = fsm.tick(
        plus(now, 30_000),
        Observation {
            last_handshake: Some(now),
            kernel_endpoint: Some(ep("[2001:db8::1]:4193")),
        },
    );
    assert!(actions.is_empty(), "got {actions:?}");
}

#[test]
fn connected_follows_peer_roaming() {
    let mut fsm = PeerFsm::new(three(), t0());
    let now = plus(t0(), 3_000);
    let _ = fsm.tick(
        now,
        Observation {
            last_handshake: Some(now),
            kernel_endpoint: Some(ep("[2001:db8::1]:4193")),
        },
    );
    let actions = fsm.tick(
        plus(now, 1_000),
        Observation {
            last_handshake: Some(plus(now, 1_000)),
            kernel_endpoint: Some(ep("[2001:db8:2::1]:4193")),
        },
    );
    assert_eq!(actions, vec![Action::MarkGood(ep("[2001:db8:2::1]:4193"))]);
    assert_eq!(
        fsm.state(),
        PunchState::Connected {
            endpoint: ep("[2001:db8:2::1]:4193")
        }
    );
}

#[test]
fn connected_falls_back_to_probing_when_handshake_goes_stale() {
    let mut fsm = PeerFsm::new(three(), t0());
    let now = plus(t0(), 3_000);
    let _ = fsm.tick(
        now,
        Observation {
            last_handshake: Some(now),
            kernel_endpoint: Some(ep("[2001:db8::2]:4193")),
        },
    );
    let actions = fsm.tick(
        plus(now, 300_000),
        Observation {
            last_handshake: Some(now),
            kernel_endpoint: Some(ep("[2001:db8::2]:4193")),
        },
    );
    assert_eq!(
        actions,
        vec![Action::SetEndpoint(ep("[2001:db8::1]:4193")), Action::Nudge]
    );
    assert_eq!(
        fsm.state(),
        PunchState::Probing {
            candidate_index: 0,
            rounds: 0
        }
    );
}

#[test]
fn kick_while_connected_only_nudges() {
    let mut fsm = PeerFsm::new(three(), t0());
    let now = plus(t0(), 3_000);
    let _ = fsm.tick(
        now,
        Observation {
            last_handshake: Some(now),
            kernel_endpoint: Some(ep("[2001:db8::1]:4193")),
        },
    );
    assert_eq!(fsm.kick(plus(now, 1_000)), vec![Action::Nudge]);
}

#[test]
fn empty_candidates_never_panic_and_emit_nothing() {
    let mut fsm = PeerFsm::new(vec![], t0());
    assert!(fsm.kick(t0()).is_empty());
    assert!(fsm.tick(plus(t0(), 10_000), cold()).is_empty());
    assert_eq!(fsm.current_candidate(), None);
    assert_eq!(fsm.candidates_len(), 0);
}

#[test]
fn handshake_in_the_future_is_treated_as_fresh() {
    let mut fsm = PeerFsm::new(three(), t0());
    let now = plus(t0(), 3_000);
    let actions = fsm.tick(
        now,
        Observation {
            last_handshake: Some(plus(now, 60_000)),
            kernel_endpoint: Some(ep("[2001:db8::1]:4193")),
        },
    );
    assert_eq!(actions, vec![Action::MarkGood(ep("[2001:db8::1]:4193"))]);
}

#[test]
fn set_candidates_jumps_to_a_newly_discovered_endpoint() {
    let mut fsm = PeerFsm::new(three(), t0());
    let _ = fsm.kick(t0());
    let _ = fsm.tick(plus(t0(), 2_600), cold());

    let discovered = ep("[2001:db8:9::9]:4193");
    let mut next = vec![discovered];
    next.extend(three());
    let actions = fsm.set_candidates(next, plus(t0(), 3_000));
    assert_eq!(
        actions,
        vec![Action::SetEndpoint(discovered), Action::Nudge]);
    assert_eq!(fsm.current_candidate(), Some(discovered));
    assert_eq!(fsm.candidates_len(), 4);
}

#[test]
fn set_candidates_keeps_pointing_at_the_same_endpoint_when_only_order_changes() {
    let mut fsm = PeerFsm::new(three(), t0());
    let _ = fsm.kick(t0());
    let _ = fsm.tick(plus(t0(), 2_600), cold());
    assert_eq!(fsm.current_candidate(), Some(ep("[2001:db8::2]:4193")));
    let reordered = vec![
        ep("[2001:db8::3]:4193"),
        ep("[2001:db8::2]:4193"),
        ep("[2001:db8::1]:4193"),
    ];
    let actions = fsm.set_candidates(reordered, plus(t0(), 3_000));
    assert!(actions.is_empty(), "got {actions:?}");
    assert_eq!(fsm.current_candidate(), Some(ep("[2001:db8::2]:4193")));
}

#[test]
fn set_candidates_falls_back_to_first_when_current_disappears() {
    let mut fsm = PeerFsm::new(three(), t0());
    let _ = fsm.kick(t0());
    let _ = fsm.tick(plus(t0(), 2_600), cold());
    assert_eq!(fsm.current_candidate(), Some(ep("[2001:db8::2]:4193")));
    let shrunk = vec![ep("[2001:db8::1]:4193"), ep("[2001:db8::3]:4193")];
    let actions = fsm.set_candidates(shrunk, plus(t0(), 3_000));
    assert_eq!(
        actions,
        vec![Action::SetEndpoint(ep("[2001:db8::1]:4193")), Action::Nudge]
    );
    assert_eq!(fsm.current_candidate(), Some(ep("[2001:db8::1]:4193")));
}

#[test]
fn set_candidates_never_disturbs_a_connected_peer() {
    let mut fsm = PeerFsm::new(three(), t0());
    let now = plus(t0(), 3_000);
    let _ = fsm.tick(
        now,
        Observation {
            last_handshake: Some(now),
            kernel_endpoint: Some(ep("[2001:db8::1]:4193")),
        },
    );
    let mut next = vec![ep("[2001:db8:9::9]:4193")];
    next.extend(three());
    let actions = fsm.set_candidates(next, plus(now, 1_000));
    assert!(actions.is_empty(), "got {actions:?}");
    assert_eq!(
        fsm.state(),
        PunchState::Connected {
            endpoint: ep("[2001:db8::1]:4193")
        }
    );
    assert_eq!(fsm.candidates_len(), 4);
}

#[test]
fn retry_from_leaves_connected_and_skips_the_avoided_candidate() {
    let mut fsm = PeerFsm::new(three(), t0());
    let now = plus(t0(), 3_000);
    let _ = fsm.tick(
        now,
        Observation {
            last_handshake: Some(now),
            kernel_endpoint: Some(ep("[2001:db8::3]:4193")),
        },
    );
    let actions = fsm.retry_from(Some(ep("[2001:db8::3]:4193")), now);
    assert_eq!(
        actions,
        vec![Action::SetEndpoint(ep("[2001:db8::1]:4193")), Action::Nudge]
    );
    assert_eq!(
        fsm.state(),
        PunchState::Probing {
            candidate_index: 0,
            rounds: 0
        }
    );
}

#[test]
fn retry_from_is_a_noop_without_alternatives_or_while_probing() {
    let only = vec![ep("[2001:db8::1]:4193")];
    let mut fsm = PeerFsm::new(only.clone(), t0());
    let now = plus(t0(), 3_000);
    let _ = fsm.tick(
        now,
        Observation {
            last_handshake: Some(now),
            kernel_endpoint: Some(ep("[2001:db8::1]:4193")),
        },
    );
    assert!(
        fsm.retry_from(Some(ep("[2001:db8::1]:4193")), now)
            .is_empty()
    );
    assert_eq!(
        fsm.state(),
        PunchState::Connected {
            endpoint: ep("[2001:db8::1]:4193")
        }
    );
    let mut fsm = PeerFsm::new(three(), t0());
    let _ = fsm.kick(t0());
    let _ = fsm.tick(plus(t0(), 2_600), cold());
    assert!(
        fsm.retry_from(None, plus(t0(), 3_000))
            .is_empty()
    );
    assert_eq!(
        fsm.state(),
        PunchState::Probing {
            candidate_index: 1,
            rounds: 0
        }
    );
}

#[test]
fn set_candidates_with_identical_list_is_a_noop() {
    let mut fsm = PeerFsm::new(three(), t0());
    let _ = fsm.kick(t0());
    let _ = fsm.tick(plus(t0(), 2_600), cold());
    let actions = fsm.set_candidates(three(), plus(t0(), 3_000));
    assert!(actions.is_empty(), "got {actions:?}");
    assert_eq!(fsm.current_candidate(), Some(ep("[2001:db8::2]:4193")));
}

#[test]
fn set_candidates_handles_empty_and_from_empty() {
    let mut fsm = PeerFsm::new(vec![], t0());
    let actions = fsm.set_candidates(three(), t0());
    assert_eq!(
        actions,
        vec![Action::SetEndpoint(ep("[2001:db8::1]:4193")), Action::Nudge]
    );
    let actions = fsm.set_candidates(vec![], plus(t0(), 1_000));
    assert!(actions.is_empty(), "got {actions:?}");
    assert_eq!(
        fsm.state(),
        PunchState::Probing {
            candidate_index: 0,
            rounds: 0
        }
    );
    assert_eq!(fsm.current_candidate(), None);
}

#[test]
fn set_candidates_normalizes_and_dedupes() {
    let mut fsm = PeerFsm::new(vec![], t0());
    let with_scope = SocketAddrV6::new(ip("2001:db8::1"), 4193, 4, 9);
    let _ = fsm.set_candidates(vec![with_scope, ep("[2001:db8::1]:4193")], t0());
    assert_eq!(fsm.candidates_len(), 1);
    assert_eq!(fsm.current_candidate(), Some(ep("[2001:db8::1]:4193")));
}

#[test]
fn set_candidates_resets_the_rotation_timer() {
    let mut fsm = PeerFsm::new(three(), t0());
    let _ = fsm.kick(t0());
    let at = plus(t0(), 2_400);
    let mut next = vec![ep("[2001:db8:9::9]:4193")];
    next.extend(three());
    let _ = fsm.set_candidates(next, at);
    let actions = fsm.tick(plus(at, 200), cold());
    assert!(actions.is_empty());
}

#[test]
fn connected_without_kernel_endpoint_falls_back_to_candidate() {
    let mut fsm = PeerFsm::new(three(), t0());
    let now = plus(t0(), 3_000);
    let actions = fsm.tick(
        now,
        Observation {
            last_handshake: Some(now),
            kernel_endpoint: None,
        },
    );
    assert_eq!(actions, vec![Action::MarkGood(ep("[2001:db8::1]:4193"))]);
}

#[test]
fn a_handshake_is_fresh_for_three_minutes() {
    let now = plus(t0(), 1_000_000);
    assert!(!handshake_is_fresh(None, now));
    assert!(handshake_is_fresh(Some(plus(now, -179_999)), now));
    assert!(!handshake_is_fresh(Some(plus(now, -180_000)), now));
    assert!(handshake_is_fresh(Some(plus(now, 1)), now));
}

#[test]
fn rotation_waits_for_the_whole_interval() {
    let mut fsm = PeerFsm::new(three(), t0());
    let _ = fsm.kick(t0());
    assert!(fsm.tick(plus(t0(), 2_499), cold()).is_empty());
    assert!(!fsm.tick(plus(t0(), 2_500), cold()).is_empty());
}

#[test]
fn a_clock_set_back_does_not_rotate() {
    let mut fsm = PeerFsm::new(three(), t0());
    let _ = fsm.kick(t0());
    assert!(fsm.tick(plus(t0(), -3_600_000), cold()).is_empty());
    assert_eq!(fsm.current_candidate(), Some(ep("[2001:db8::1]:4193")));
}

#[test]
fn a_flush_enters_the_peer_anew() {
    let mut fsm = PeerFsm::new(three(), t0());
    let now = plus(t0(), 3_000);
    let _ = fsm.tick(
        now,
        Observation {
            last_handshake: Some(now),
            kernel_endpoint: Some(ep("[2001:db8::1]:4193")),
        },
    );
    let actions = fsm.retry_from_flush(Some(ep("[2001:db8::1]:4193")), now);
    assert_eq!(
        actions,
        vec![Action::Rehandshake(ep("[2001:db8::2]:4193")), Action::Nudge]
    );
}

#[test]
fn new_candidates_are_normalized() {
    let fsm = PeerFsm::new(vec![SocketAddrV6::new(ip("2001:db8::1"), 4193, 4, 9)], t0());
    assert_eq!(fsm.current_candidate(), Some(ep("[2001:db8::1]:4193")));
}

#[test]
fn losing_every_candidate_starts_over() {
    let mut fsm = PeerFsm::new(three(), t0());
    for i in 1..=4 {
        fsm.tick(plus(t0(), 2_500 * i), cold());
    }
    let before = PunchState::Probing {
        candidate_index: 1,
        rounds: 1,
    };
    assert_eq!(fsm.state(), before);
    let start = PunchState::Probing {
        candidate_index: 0,
        rounds: 0,
    };
    assert!(fsm.set_candidates(vec![], plus(t0(), 11_000)).is_empty());
    assert_eq!(fsm.state(), start);
    assert!(fsm.tick(plus(t0(), 20_000), cold()).is_empty());
    assert!(fsm.set_candidates(vec![], plus(t0(), 21_000)).is_empty());
    assert_eq!(fsm.state(), start);
}
