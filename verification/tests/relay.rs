//! The relay and its clients.

use hextet::addr::{Ipv6Addr, SocketAddr, SocketAddrV6};
use hextet::relay::{session_key_of, RelayFrame, RelayKind, SessionKey};
use hextet::relay_client::{
    accept_ack, can_register, register_frame, unregister_frame, RelaySession,
};
use hextet::relay_server::{
    forward_to, within_skew, Acknowledgement, ControlStep, PacketLimiter, RelayPolicy, RelayTable,
    FORWARD_BUF, MAX_PACKETS_PER_SEC, MAX_SESSIONS, SEQ_SKEW_TOLERANCE_SECS, SESSION_TTL,
};
use hextet::time::Instant;

fn ip(s: &str) -> Ipv6Addr {
    let (head, tail) = s.split_once("::").unwrap_or((s, ""));
    let groups = |t: &str| -> Vec<u128> {
        t.split(':')
            .filter(|g| !g.is_empty())
            .map(|g| u128::from_str_radix(g, 16).unwrap())
            .collect()
    };
    let mut bits: u128 = 0;
    for (i, g) in groups(head).iter().enumerate() {
        bits |= g << (112 - 16 * i);
    }
    for (i, g) in groups(tail).iter().rev().enumerate() {
        bits |= g << (16 * i);
    }
    Ipv6Addr::new(bits)
}

fn ep(s: &str) -> SocketAddrV6 {
    let (host, port) = s.rsplit_once(':').unwrap();
    let host = host.trim_start_matches('[').trim_end_matches(']');
    SocketAddrV6::new(ip(host), port.parse().unwrap(), 0, 0)
}

const NOW: u64 = 1_770_000_000;

fn id(seed: u8) -> [u8; 32] {
    [seed; 32]
}

fn pair(x: u8, y: u8) -> SessionKey {
    session_key_of(&id(x), &id(y))
}

fn at(millis: u64) -> Instant {
    Instant {
        nanos: 1_000_000_000_000 + millis * 1_000_000,
    }
}

#[test]
fn table_tracks_two_sides_and_expires() {
    let mut table = RelayTable::new();
    let key = pair(2, 3);
    assert!(!table.contains(&key));
    assert!(table.is_empty());

    assert!(table.insert(key, 40000, 1000));
    assert_eq!(table.port(&key), Some(40000));
    assert_eq!(table.addrs(&key), [None, None]);
    assert_eq!(table.len(), 1);

    assert!(table.touch_addr(&key, 0, ep("[2001:db8::1]:4193"), 1000));
    assert!(table.touch_addr(&key, 1, ep("[2001:db8::2]:4193"), 1000));
    assert_eq!(
        table.addrs(&key),
        [
            Some(ep("[2001:db8::1]:4193")),
            Some(ep("[2001:db8::2]:4193"))
        ]
    );
    assert!(!table.touch_addr(&key, 0, ep("[2001:db8::1]:4193"), 1001));
    assert!(table.touch_addr(&key, 0, ep("[2001:db8:9::1]:4193"), 1002));

    assert!(table.prune(1002 + SESSION_TTL).is_empty());
    assert_eq!(table.prune(1002 + SESSION_TTL + 1), vec![key]);
    assert!(table.is_empty());
    assert_eq!(table.port(&key), None);
    assert_eq!(table.addrs(&key), [None, None]);
    assert!(!table.touch_addr(&key, 0, ep("[2001:db8::1]:4193"), 2000));
}

#[test]
fn table_is_bounded() {
    let mut table = RelayTable::new();
    for i in 0..MAX_SESSIONS {
        let key = [
            [u8::try_from(i % 251).unwrap(); 32],
            [(i / 251) as u8 + 1; 32],
        ];
        assert!(table.insert(key, 1234, 0), "session {i} should open");
    }
    assert_eq!(table.len(), MAX_SESSIONS);
    assert!(
        !table.insert(pair(9, 10), 1234, 0),
        "a full table refuses newcomers and evicts nobody"
    );
    assert_eq!(table.len(), MAX_SESSIONS);
}

#[test]
fn table_remove_is_idempotent() {
    let mut table = RelayTable::new();
    let key = pair(2, 3);
    table.insert(key, 1, 0);
    table.remove(&key);
    table.remove(&key);
    assert!(table.is_empty());
}

#[test]
fn packet_limiter_caps_per_window_and_resets() {
    let t0 = at(0);
    let mut limiter = PacketLimiter::new(t0);
    for i in 0..MAX_PACKETS_PER_SEC {
        assert!(limiter.allow(t0), "packet {i} should pass");
    }
    assert!(!limiter.allow(t0), "over the limit");
    assert!(!limiter.allow(at(999)));
    assert_eq!(limiter.dropped(), 2);
    assert!(limiter.allow(at(1_001)));
    assert_eq!(limiter.dropped(), 0);
}

#[test]
fn policy_allowlist_only_admits_listed_keys() {
    let a = id(2);
    let b = id(3);
    assert!(RelayPolicy::AnyMember.allows(&a));
    let policy = RelayPolicy::Allowlist(vec![a]);
    assert!(policy.allows(&a));
    assert!(!policy.allows(&b));
    assert!(RelayPolicy::from_allowlist(vec![]).allows(&b));
    assert!(!RelayPolicy::from_allowlist(vec![a]).allows(&b));
}

/// A relay whose sockets are replaced by what they would do.
struct Relay {
    table: RelayTable,
    policy: RelayPolicy,
    sessions: Vec<(SessionKey, [Option<SocketAddrV6>; 2], PacketLimiter)>,
    next_port: u16,
}

/// A node: where it is, with its control port and its WireGuard port.
struct Node {
    key: [u8; 32],
    ctrl: SocketAddrV6,
    wg: SocketAddrV6,
}

fn node(seed: u8) -> Node {
    let host = format!("2001:db8::{seed:x}");
    Node {
        key: id(seed),
        ctrl: ep(&format!("[{host}]:50000")),
        wg: ep(&format!("[{host}]:4193")),
    }
}

impl Relay {
    fn new(policy: RelayPolicy) -> Relay {
        Relay {
            table: RelayTable::new(),
            policy,
            sessions: Vec::new(),
            next_port: 40000,
        }
    }

    fn update(&mut self, ack: Acknowledgement) -> RelayFrame {
        for s in self.sessions.iter_mut() {
            if s.0 == ack.key {
                s.1 = ack.addrs;
            }
        }
        ack.frame
    }

    fn take(&mut self, frame: Option<RelayFrame>, src: SocketAddrV6, now: u64) -> Option<RelayFrame> {
        let out = self.table.control(&self.policy, frame, SocketAddr::V6(src), now);
        self.sessions.retain(|s| !out.closed.contains(&s.0));
        match out.step {
            ControlStep::Ignore => None,
            ControlStep::Acknowledge(ack) => Some(self.update(ack)),
            ControlStep::Bind(reg) => {
                let port = self.next_port;
                self.next_port += 1;
                self.sessions
                    .push((reg.key, [None, None], PacketLimiter::new(at(0))));
                let ack = self.table.open(reg, Some(port))?;
                Some(self.update(ack))
            }
        }
    }

    fn forward(
        &mut self,
        port: u16,
        src: SocketAddrV6,
        is_control: bool,
        len: usize,
    ) -> Option<SocketAddrV6> {
        let table = &self.table;
        let s = self
            .sessions
            .iter_mut()
            .find(|s| table.port(&s.0) == Some(port))?;
        forward_to(&s.1, &mut s.2, SocketAddr::V6(src), is_control, len, at(0))
    }
}

fn register(relay: &mut Relay, node: &Node, peer: &Node) -> u16 {
    let frame = register_frame(&node.key, &peer.key, node.wg.port, NOW);
    let ack = relay.take(Some(frame), node.ctrl, NOW).expect("an answer");
    assert_eq!(ack.kind, RelayKind::RegisterAck);
    assert_eq!(ack.self_key, node.key);
    assert_eq!(ack.peer_key, peer.key);
    assert_eq!(ack.seq, NOW);
    assert_ne!(ack.port, 0);
    ack.port
}

#[test]
fn relays_payload_in_both_directions() {
    let mut relay = Relay::new(RelayPolicy::AnyMember);
    let (a, b) = (node(2), node(3));
    let port_a = register(&mut relay, &a, &b);
    let port_b = register(&mut relay, &b, &a);
    assert_eq!(port_a, port_b, "a pair has one session");

    assert_eq!(relay.forward(port_a, a.wg, false, 6), Some(b.wg));
    assert_eq!(relay.forward(port_a, b.wg, false, 6), Some(a.wg));
}

#[test]
fn half_open_session_forwards_nothing() {
    let mut relay = Relay::new(RelayPolicy::AnyMember);
    let (a, b) = (node(2), node(3));
    let port = register(&mut relay, &a, &b);
    assert_eq!(relay.forward(port, a.wg, false, 11), None);
    assert_eq!(relay.forward(port, b.wg, false, 11), None);
}

#[test]
fn bad_mac_gets_no_ack() {
    let mut relay = Relay::new(RelayPolicy::AnyMember);
    let a = node(2);
    assert!(relay.take(None, a.ctrl, NOW).is_none());
    assert!(relay.table.is_empty());
}

#[test]
fn stale_seq_is_rejected() {
    let mut relay = Relay::new(RelayPolicy::AnyMember);
    let (a, b) = (node(2), node(3));
    let frame = register_frame(&a.key, &b.key, a.wg.port, NOW - 3600);
    assert!(relay.take(Some(frame), a.ctrl, NOW).is_none());
    let frame = register_frame(&a.key, &b.key, a.wg.port, NOW + 3600);
    assert!(relay.take(Some(frame), a.ctrl, NOW).is_none());
    assert!(relay.table.is_empty());
}

#[test]
fn unregister_stops_forwarding() {
    let mut relay = Relay::new(RelayPolicy::AnyMember);
    let (a, b) = (node(2), node(3));
    let port = register(&mut relay, &a, &b);
    register(&mut relay, &b, &a);
    assert_eq!(relay.forward(port, a.wg, false, 10), Some(b.wg));

    let frame = unregister_frame(&a.key, &b.key, a.wg.port, NOW);
    assert_eq!(frame.kind, RelayKind::Unregister);
    assert!(relay.take(Some(frame), a.ctrl, NOW).is_none());
    assert!(relay.sessions.is_empty());
    assert_eq!(relay.forward(port, a.wg, false, 16), None);
}

#[test]
fn control_frames_are_not_forwarded_as_data() {
    let mut relay = Relay::new(RelayPolicy::AnyMember);
    let (a, b) = (node(2), node(3));
    let port = register(&mut relay, &a, &b);
    register(&mut relay, &b, &a);
    assert_eq!(relay.forward(port, a.wg, true, 100), None);
    assert_eq!(relay.forward(port, a.wg, false, 11), Some(b.wg));
}

#[test]
fn allowlist_blocks_unlisted_nodes() {
    let (a, b) = (node(2), node(3));
    let mut relay = Relay::new(RelayPolicy::Allowlist(vec![a.key]));
    let port = register(&mut relay, &a, &b);
    let frame = register_frame(&b.key, &a.key, b.wg.port, NOW);
    assert!(relay.take(Some(frame), b.ctrl, NOW).is_none(), "no answer");
    assert_eq!(relay.forward(port, a.wg, false, 4), None, "half open");
}

#[test]
fn packets_that_may_be_cut_off_and_strangers_are_dropped() {
    let mut relay = Relay::new(RelayPolicy::AnyMember);
    let (a, b, c) = (node(2), node(3), node(4));
    let port = register(&mut relay, &a, &b);
    register(&mut relay, &b, &a);
    assert_eq!(relay.forward(port, a.wg, false, FORWARD_BUF), None);
    assert_eq!(relay.forward(port, a.wg, false, FORWARD_BUF - 1), Some(b.wg));
    assert_eq!(relay.forward(port, c.wg, false, 4), None);
}

#[test]
fn ipv4_and_frames_without_a_port_are_ignored() {
    let mut table = RelayTable::new();
    let frame = register_frame(&id(2), &id(3), 4193, NOW);
    let v4 = SocketAddr::V4 {
        ip: 0x7f00_0001,
        port: 1,
    };
    let out = table.control(&RelayPolicy::AnyMember, Some(frame), v4, NOW);
    assert!(matches!(out.step, ControlStep::Ignore));
    let frame = register_frame(&id(2), &id(3), 0, NOW);
    let src = SocketAddr::V6(node(2).ctrl);
    let out = table.control(&RelayPolicy::AnyMember, Some(frame), src, NOW);
    assert!(matches!(out.step, ControlStep::Ignore));
    let mut frame = register_frame(&id(2), &id(3), 4193, NOW);
    frame.kind = RelayKind::RegisterAck;
    let out = table.control(&RelayPolicy::AnyMember, Some(frame), src, NOW);
    assert!(matches!(out.step, ControlStep::Ignore));
    assert!(table.is_empty());
}

#[test]
fn a_full_relay_takes_a_new_session_once_something_expired() {
    let mut relay = Relay::new(RelayPolicy::AnyMember);
    for i in 0..MAX_SESSIONS {
        let key = [[(i % 251) as u8; 32], [(i / 251) as u8 + 252; 32]];
        assert!(relay.table.insert(key, 1234, NOW));
    }
    let (a, b) = (node(2), node(3));
    let frame = register_frame(&a.key, &b.key, a.wg.port, NOW);
    assert!(relay.take(Some(frame), a.ctrl, NOW).is_none());
    let later = NOW + SESSION_TTL + 1;
    let frame = register_frame(&a.key, &b.key, a.wg.port, later);
    assert!(relay.take(Some(frame), a.ctrl, later).is_some());
    assert_eq!(relay.table.len(), 1);
}

#[test]
fn a_session_whose_socket_cannot_be_bound_does_not_open() {
    let mut table = RelayTable::new();
    let frame = register_frame(&id(2), &id(3), 4193, NOW);
    let src = SocketAddr::V6(node(2).ctrl);
    let out = table.control(&RelayPolicy::AnyMember, Some(frame), src, NOW);
    let ControlStep::Bind(reg) = out.step else {
        panic!("expected Bind")
    };
    assert_eq!(reg.data_addr, node(2).wg);
    assert!(table.open(reg, None).is_none());
    assert!(table.is_empty());
}

#[test]
fn both_nodes_name_the_same_session() {
    assert_eq!(pair(2, 3), pair(3, 2));
    assert_eq!(pair(2, 3), [[2; 32], [3; 32]]);
    assert_ne!(pair(2, 3), pair(2, 4));
    let frame = register_frame(&id(3), &id(2), 1, NOW);
    assert_eq!(frame.session_key(), pair(2, 3));
}

#[test]
fn the_time_in_a_frame_may_be_a_little_off() {
    let t = SEQ_SKEW_TOLERANCE_SECS;
    assert!(within_skew(NOW - t, NOW, t));
    assert!(within_skew(NOW + t, NOW, t));
    assert!(!within_skew(NOW - t - 1, NOW, t));
    assert!(!within_skew(NOW + t + 1, NOW, t));
    assert!(!within_skew(u64::MAX, 0, t));
}

fn client_register(relay: &mut Relay, me: &Node, peer: &Node) -> Option<RelaySession> {
    let frame = register_frame(&me.key, &peer.key, me.wg.port, NOW);
    let ack = relay.take(Some(frame), me.ctrl, NOW);
    let control = SocketAddrV6::new(ip("2001:db8:f::1"), 4196, 0, 7);
    accept_ack(ack, SocketAddr::V6(control), &me.key, &peer.key)
}

#[test]
fn register_yields_a_working_session_endpoint() {
    let mut relay = Relay::new(RelayPolicy::AnyMember);
    let (a, b) = (node(2), node(3));
    let sess_a = client_register(&mut relay, &a, &b).expect("a session");
    let sess_b = client_register(&mut relay, &b, &a).expect("a session");
    assert_eq!(sess_a.endpoint, sess_b.endpoint);
    assert_eq!(sess_a.control, ep("[2001:db8:f::1]:4196"));
    assert_ne!(sess_a.endpoint.port, sess_a.control.port);
    assert_eq!(sess_a.endpoint.ip, sess_a.control.ip);
    assert_eq!(
        relay.forward(sess_a.endpoint.port, a.wg, false, 17),
        Some(b.wg)
    );
}

/// Where no authentic answer comes, there is no session.
#[test]
fn register_gives_up_when_nobody_answers() {
    let from = SocketAddr::V6(ep("[2001:db8:f::1]:4196"));
    assert!(accept_ack(None, from, &id(2), &id(3)).is_none());
}

#[test]
fn wrong_relay_key_yields_none() {
    let mut relay = Relay::new(RelayPolicy::AnyMember);
    let a = node(2);
    let ack = relay.take(None, a.ctrl, NOW);
    let from = SocketAddr::V6(ep("[2001:db8:f::1]:4196"));
    assert!(accept_ack(ack, from, &a.key, &id(3)).is_none());
}

#[test]
fn empty_inputs_are_rejected_without_touching_the_network() {
    assert!(!can_register(&[], 4193));
    assert!(!can_register(&[ep("[2001:db8:f::1]:4196")], 0));
    assert!(can_register(&[ep("[2001:db8:f::1]:4196")], 4193));
}

#[test]
fn unregister_releases_the_session() {
    let mut relay = Relay::new(RelayPolicy::AnyMember);
    let (a, b) = (node(2), node(3));
    let sess = client_register(&mut relay, &a, &b).unwrap();
    client_register(&mut relay, &b, &a).unwrap();
    let frame = unregister_frame(&a.key, &b.key, a.wg.port, NOW);
    relay.take(Some(frame), a.ctrl, NOW);
    assert_eq!(relay.forward(sess.endpoint.port, a.wg, false, 16), None);
    assert!(relay.table.is_empty());
}

#[test]
fn only_the_matching_answer_opens_a_session() {
    let from = SocketAddr::V6(ep("[2001:db8:f::1]:4196"));
    let ack = RelayFrame {
        kind: RelayKind::RegisterAck,
        port: 40000,
        seq: NOW,
        self_key: id(2),
        peer_key: id(3),
    };
    assert!(accept_ack(Some(ack), from, &id(2), &id(3)).is_some());
    assert!(accept_ack(Some(ack), from, &id(2), &id(4)).is_none());
    assert!(accept_ack(Some(ack), from, &id(3), &id(2)).is_none());
    let v4 = SocketAddr::V4 { ip: 1, port: 1 };
    assert!(accept_ack(Some(ack), v4, &id(2), &id(3)).is_none());
    let mut other = ack;
    other.port = 0;
    assert!(accept_ack(Some(other), from, &id(2), &id(3)).is_none());
    let mut other = ack;
    other.kind = RelayKind::Register;
    assert!(accept_ack(Some(other), from, &id(2), &id(3)).is_none());
}

#[test]
fn a_pair_that_moved_registers_again_into_its_session() {
    let mut relay = Relay::new(RelayPolicy::AnyMember);
    let (a, b) = (node(2), node(3));
    let port = register(&mut relay, &a, &b);
    register(&mut relay, &b, &a);
    let moved_a = Node {
        key: a.key,
        ..node(4)
    };
    let moved_b = Node {
        key: b.key,
        ..node(5)
    };
    assert_eq!(register(&mut relay, &moved_b, &moved_a), port);
    assert_eq!(register(&mut relay, &moved_a, &moved_b), port);
    assert_eq!(relay.forward(port, moved_a.wg, false, 6), Some(moved_b.wg));
    assert_eq!(relay.forward(port, moved_b.wg, false, 6), Some(moved_a.wg));
    assert_eq!(relay.forward(port, a.wg, false, 6), None);
}
