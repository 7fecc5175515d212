//! Probing whether a node can be reached.

use hextet::addr::{Ipv6Addr, SocketAddr, SocketAddrV6};
use hextet::doctor_client::{ProbeOutcome, ProbeSession};
use hextet::probe::{ProbeKind, ProbePacket};
use hextet::probe_responder::{respond, RateLimiter, RATE_TABLE_MAX};
use hextet::time::Instant;

fn ip(s: &str) -> Ipv6Addr {
    let (head, tail) = s.split_once("::").unwrap_or((s, ""));
    let groups = |t: &str| -> Vec<u128> {
        t.split(':')
            .filter(|g| !g.is_empty())
            .map(|g| u128::from_str_radix(g, 16).unwrap())
            .collect()
    };
    let mut bits: u128 = 0;
    for (i, g) in groups(head).iter().enumerate() {
        bits |= g << (112 - 16 * i);
    }
    for (i, g) in groups(tail).iter().rev().enumerate() {
        bits |= g << (16 * i);
    }
    Ipv6Addr::new(bits)
}

fn ep(s: &str) -> SocketAddrV6 {
    let (host, port) = s.rsplit_once(':').unwrap();
    let host = host.trim_start_matches('[').trim_end_matches(']');
    SocketAddrV6::new(ip(host), port.parse().unwrap(), 0, 0)
}

fn at(millis: u64) -> Instant {
    Instant {
        nanos: 1_000_000_000_000 + millis * 1_000_000,
    }
}

#[test]
fn rate_limiter_allows_then_denies_then_allows() {
    let mut limiter = RateLimiter::new();
    let addr = ip("2001:db8::1");
    assert!(limiter.allow(addr, at(0)));
    assert!(!limiter.allow(addr, at(500)));
    assert!(!limiter.allow(addr, at(999)));
    assert!(limiter.allow(addr, at(1_001)));
}

#[test]
fn rate_limiter_tracks_ips_independently() {
    let mut limiter = RateLimiter::new();
    assert!(limiter.allow(ip("2001:db8::1"), at(0)));
    assert!(limiter.allow(ip("2001:db8::2"), at(0)));
    assert!(!limiter.allow(ip("2001:db8::1"), at(0)));
}

#[test]
fn rate_limiter_table_stays_bounded() {
    let mut limiter = RateLimiter::new();
    for i in 0..500u32 {
        limiter.allow(ip(&format!("2001:db8::{i:x}")), at(u64::from(i)));
    }
    assert!(
        limiter.tracked_count() <= RATE_TABLE_MAX,
        "table grew to {}",
        limiter.tracked_count()
    );
}

#[test]
fn room_is_made_by_forgetting_who_asked_long_ago() {
    let mut limiter = RateLimiter::default();
    for i in 1..RATE_TABLE_MAX {
        limiter.allow(ip(&format!("2001:db8::{i:x}")), at(0));
    }
    assert!(limiter.allow(ip("2001:db8::1"), at(59_999)));
    assert!(limiter.allow(ip("2001:db8:2::1"), at(59_999)));
    assert_eq!(limiter.tracked_count(), RATE_TABLE_MAX);
    assert!(limiter.allow(ip("2001:db8:1::1"), at(60_000)));
    assert_eq!(limiter.tracked_count(), 3);
    assert!(!limiter.allow(ip("2001:db8::1"), at(60_500)));
}

#[test]
fn a_table_full_of_recent_addresses_starts_anew() {
    let mut limiter = RateLimiter::new();
    for i in 0..RATE_TABLE_MAX {
        limiter.allow(ip(&format!("2001:db8::{i:x}")), at(0));
    }
    assert!(limiter.allow(ip("2001:db8:1::1"), at(500)));
    assert_eq!(limiter.tracked_count(), 1);
    assert!(limiter.allow(ip("2001:db8::1"), at(500)));
}

fn packet(kind: ProbeKind, nonce: u64, reply_port: u16) -> Option<ProbePacket> {
    Some(ProbePacket {
        kind,
        nonce,
        reply_port,
    })
}

#[test]
fn responder_answers_and_sends_unsolicited() {
    let mut limiter = RateLimiter::new();
    let src = SocketAddrV6::new(ip("fe80::7"), 50000, 3, 2);
    let request = packet(ProbeKind::Request, 0xabcd, 41000);
    let reply = respond(&mut limiter, request, SocketAddr::V6(src), at(0)).expect("an answer");
    assert_eq!(reply.response.kind, ProbeKind::Response);
    assert_eq!(reply.response.nonce, 0xabcd);
    let (to, unsolicited) = reply.unsolicited.expect("one more");
    assert_eq!(unsolicited.kind, ProbeKind::Unsolicited);
    assert_eq!(unsolicited.nonce, 0xabcd);
    assert_eq!(to, SocketAddrV6::new(src.ip, 41000, 0, 2));
    assert!(respond(&mut limiter, request, SocketAddr::V6(src), at(10)).is_none());
}

#[test]
fn responder_ignores_bad_mac_and_non_request() {
    let mut limiter = RateLimiter::new();
    let src = SocketAddr::V6(ep("[2001:db8::7]:50000"));
    assert!(respond(&mut limiter, None, src, at(0)).is_none());
    let wrong = packet(ProbeKind::Response, 2, 0);
    assert!(respond(&mut limiter, wrong, src, at(0)).is_none());
    let v4 = SocketAddr::V4 { ip: 1, port: 1 };
    let request = packet(ProbeKind::Request, 3, 0);
    assert!(respond(&mut limiter, request, v4, at(0)).is_none());
    assert_eq!(limiter.tracked_count(), 0);
}

#[test]
fn responder_skips_unsolicited_when_reply_port_is_zero() {
    let mut limiter = RateLimiter::new();
    let src = SocketAddr::V6(ep("[2001:db8::7]:50000"));
    let request = packet(ProbeKind::Request, 5, 0);
    let reply = respond(&mut limiter, request, src, at(0)).expect("an answer");
    assert_eq!(reply.response.kind, ProbeKind::Response);
    assert!(reply.unsolicited.is_none());
}

/// A probe of a node that answers as `responder` does.
fn probe(responder: impl Fn(ProbePacket) -> Option<ProbePacket>, own: Vec<Ipv6Addr>) -> ProbeOutcome {
    let mut session = ProbeSession::new(77, 41000);
    let mut limiter = RateLimiter::new();
    let from = SocketAddr::V6(ep("[2001:db8::1]:50000"));
    assert!(session.wants_request());
    let request = responder(session.request());
    if let Some(reply) = respond(&mut limiter, request, from, at(0)) {
        session.on_first_socket(Some(reply.response));
        assert!(!session.wants_request());
        let (to, p) = reply.unsolicited.unwrap();
        assert_eq!(to.port, 41000);
        session.on_second_socket(Some(p));
        assert!(session.is_complete());
    }
    session.finish(ep("[2001:db8::9]:4194"), own)
}

fn own() -> Vec<Ipv6Addr> {
    vec![ip("2001:db8::1")]
}

#[test]
fn probe_against_real_responder_reports_open() {
    let outcome = probe(Some, own());
    assert!(outcome.evidence.has_global_ipv6);
    assert!(outcome.evidence.solicited_ok, "{outcome:?}");
    assert!(outcome.evidence.unsolicited_ok, "{outcome:?}");
    assert_eq!(outcome.target, ep("[2001:db8::9]:4194"));
    assert_eq!(outcome.global_addresses, own());
}

#[test]
fn probe_against_nobody_reports_blocked() {
    let mut session = ProbeSession::new(77, 41000);
    session.on_first_socket(None);
    session.on_second_socket(None);
    assert!(session.wants_request());
    let outcome = session.finish(ep("[2001:db8::9]:4194"), own());
    assert!(!outcome.evidence.solicited_ok);
    assert!(!outcome.evidence.unsolicited_ok);
}

/// A responder with another key takes the request for noise.
#[test]
fn mismatched_network_key_reports_blocked() {
    let outcome = probe(|_| None, own());
    assert!(!outcome.evidence.solicited_ok);
    assert!(!outcome.evidence.unsolicited_ok);
    assert!(outcome.evidence.has_global_ipv6);
}

#[test]
fn no_global_address_reports_no_ipv6() {
    let outcome = probe(Some, vec![]);
    assert!(!outcome.evidence.has_global_ipv6);
    assert!(outcome.evidence.solicited_ok);
}

#[test]
fn answers_to_other_requests_prove_nothing() {
    let mut session = ProbeSession::new(77, 41000);
    session.on_first_socket(packet(ProbeKind::Response, 78, 0));
    session.on_first_socket(packet(ProbeKind::Unsolicited, 77, 0));
    session.on_second_socket(packet(ProbeKind::Response, 77, 0));
    session.on_second_socket(packet(ProbeKind::Unsolicited, 78, 0));
    assert!(!session.solicited_ok);
    assert!(!session.unsolicited_ok);
    assert!(!session.is_complete());
}

#[test]
fn a_request_delays_no_other_address() {
    let mut limiter = RateLimiter::new();
    assert!(limiter.allow(ip("2001:db8::2"), at(0)));
    assert!(limiter.allow(ip("2001:db8::1"), at(900)));
    assert!(limiter.allow(ip("2001:db8::2"), at(1_000)));
    assert!(!limiter.allow(ip("2001:db8::1"), at(1_899)));
    assert!(limiter.allow(ip("2001:db8::1"), at(1_900)));
}
