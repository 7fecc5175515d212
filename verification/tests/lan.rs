//! Discovery on the local network.

use hextet::addr::{Ipv6Addr, SocketAddrV6};
use hextet::candidates::Source;
use hextet::lan::{
    announcement, handle_datagram, usable_endpoints, Beacon, LanTable, BEACON_MAX_ADDRS, ENTRY_TTL,
    MAX_TRACKED, SEQ_SKEW_TOLERANCE_SECS,
};

fn ip(s: &str) -> Ipv6Addr {
    let (head, tail) = s.split_once("::").unwrap_or((s, ""));
    let groups = |t: &str| -> Vec<u128> {
        t.split(':')
            .filter(|g| !g.is_empty())
            .map(|g| u128::from_str_radix(g, 16).unwrap())
            .collect()
    };
    let mut bits: u128 = 0;
    for (i, g) in groups(head).iter().enumerate() {
        bits |= g << (112 - 16 * i);
    }
    for (i, g) in groups(tail).iter().rev().enumerate() {
        bits |= g << (16 * i);
    }
    Ipv6Addr::new(bits)
}

fn ep(s: &str) -> SocketAddrV6 {
    let (host, port) = s.rsplit_once(':').unwrap();
    let host = host.trim_start_matches('[').trim_end_matches(']');
    SocketAddrV6::new(ip(host), port.parse().unwrap(), 0, 0)
}

const NOW: u64 = 1_770_000_000;

fn beacon(seed: u8, port: u16, seq: u64, addrs: &[&str]) -> (String, Option<Beacon>) {
    let key = format!("node-{seed}");
    let b = Beacon {
        node_public_key: key.clone(),
        listen_port: port,
        seq,
        addresses: addrs.iter().map(|a| ip(a)).collect(),
    };
    (key, Some(b))
}

fn own_key() -> String {
    "node-1".to_owned()
}

#[test]
fn first_announcement_is_an_update() {
    let mut table = LanTable::new();
    let (peer, b) = beacon(2, 4193, NOW, &["2001:db8::2"]);
    let update = handle_datagram(b, &own_key(), &mut table, NOW).expect("an update");
    assert_eq!(update.source, Source::Lan);
    assert_eq!(update.peer_key, peer);
    assert_eq!(update.endpoints, vec![ep("[2001:db8::2]:4193")]);
    assert_eq!(table.endpoints_for(&peer), &[ep("[2001:db8::2]:4193")]);
    assert_eq!(table.tracked_count(), 1);
}

/// Multicast comes back to its sender, which must not take itself for a peer.
#[test]
fn own_announcement_is_ignored() {
    let mut table = LanTable::new();
    let (_, b) = beacon(1, 4193, NOW, &["2001:db8::1"]);
    assert!(handle_datagram(b, &own_key(), &mut table, NOW).is_none());
    assert_eq!(table.tracked_count(), 0);
}

/// What fails authentication is no announcement.
#[test]
fn bad_mac_is_ignored() {
    let mut table = LanTable::new();
    assert!(handle_datagram(None, &own_key(), &mut table, NOW).is_none());
    assert_eq!(table.tracked_count(), 0);
}

#[test]
fn garbage_is_ignored() {
    let mut table = LanTable::new();
    assert!(handle_datagram(None, &own_key(), &mut table, NOW).is_none());
    assert!(handle_datagram(None, &own_key(), &mut table, NOW).is_none());
    assert_eq!(table.tracked_count(), 0);
}

#[test]
fn announcement_without_usable_endpoints_is_ignored() {
    let mut table = LanTable::new();
    let (_, b) = beacon(2, 4193, NOW, &["fd00::2", "fe80::2"]);
    assert!(handle_datagram(b, &own_key(), &mut table, NOW).is_none());
    assert_eq!(table.tracked_count(), 0);
}

#[test]
fn stale_and_future_seq_are_ignored() {
    let mut table = LanTable::new();
    for seq in [
        NOW - SEQ_SKEW_TOLERANCE_SECS - 1,
        NOW + SEQ_SKEW_TOLERANCE_SECS + 1,
    ] {
        let (_, b) = beacon(2, 4193, seq, &["2001:db8::2"]);
        assert!(
            handle_datagram(b, &own_key(), &mut table, NOW).is_none(),
            "seq={seq} is too far off"
        );
    }
    assert_eq!(table.tracked_count(), 0);
}

#[test]
fn replayed_older_announcement_does_not_change_anything() {
    let mut table = LanTable::new();
    let (peer, new) = beacon(2, 4193, NOW, &["2001:db8::9"]);
    handle_datagram(new, &own_key(), &mut table, NOW).expect("the first one");

    let (_, old) = beacon(2, 4193, NOW - 30, &["2001:db8::1"]);
    assert!(handle_datagram(old, &own_key(), &mut table, NOW).is_none());
    assert_eq!(table.endpoints_for(&peer), &[ep("[2001:db8::9]:4193")]);
}

#[test]
fn identical_announcement_refreshes_ttl_without_an_update() {
    let mut table = LanTable::new();
    let (peer, b) = beacon(2, 4193, NOW, &["2001:db8::2"]);
    handle_datagram(b, &own_key(), &mut table, NOW).expect("the first one");
    let (_, b) = beacon(2, 4193, NOW, &["2001:db8::2"]);
    assert!(handle_datagram(b, &own_key(), &mut table, NOW + 30).is_none());
    table.prune(NOW + 30 + ENTRY_TTL - 1);
    assert_eq!(table.endpoints_for(&peer).len(), 1);
}

#[test]
fn changed_endpoint_set_is_an_update() {
    let mut table = LanTable::new();
    let (peer, first) = beacon(2, 4193, NOW, &["2001:db8::2"]);
    handle_datagram(first, &own_key(), &mut table, NOW).expect("the first one");
    let (_, second) = beacon(2, 4193, NOW + 5, &["2001:db8:2::2"]);
    let update = handle_datagram(second, &own_key(), &mut table, NOW + 5).expect("an update");
    assert_eq!(update.endpoints, vec![ep("[2001:db8:2::2]:4193")]);
    assert_eq!(table.endpoints_for(&peer), &[ep("[2001:db8:2::2]:4193")]);
}

#[test]
fn entries_expire_after_ttl() {
    let mut table = LanTable::new();
    let (peer, b) = beacon(2, 4193, NOW, &["2001:db8::2"]);
    handle_datagram(b, &own_key(), &mut table, NOW).expect("the first one");
    table.prune(NOW + ENTRY_TTL);
    assert_eq!(table.tracked_count(), 1, "not yet");
    table.prune(NOW + ENTRY_TTL + 1);
    assert_eq!(table.tracked_count(), 0);
    assert!(table.endpoints_for(&peer).is_empty());
}

#[test]
fn unknown_peer_has_no_endpoints() {
    let table = LanTable::new();
    assert!(table.endpoints_for("nobody").is_empty());
}

#[test]
fn table_stays_bounded_without_evicting_known_peers() {
    let mut table = LanTable::new();
    for i in 0..(MAX_TRACKED + 10) {
        let seed = u8::try_from(i % 200).unwrap() + 20;
        let (_, b) = beacon(seed, 4193, NOW, &[&format!("2001:db8::{:x}", i + 1)]);
        handle_datagram(b, &own_key(), &mut table, NOW);
    }
    assert_eq!(table.tracked_count(), MAX_TRACKED);

    let (first_peer, _) = beacon(20, 4193, NOW + 1, &["2001:db8::1"]);
    assert!(!table.endpoints_for(&first_peer).is_empty());
}

#[test]
fn full_table_still_updates_known_peers() {
    let mut table = LanTable::new();
    let (peer, first) = beacon(20, 4193, NOW, &["2001:db8::1"]);
    handle_datagram(first, &own_key(), &mut table, NOW).expect("the first one");
    for i in 1..(MAX_TRACKED + 10) {
        let seed = u8::try_from(i % 200).unwrap() + 21;
        let (_, b) = beacon(seed, 4193, NOW, &[&format!("2001:db8::{:x}", i + 1)]);
        handle_datagram(b, &own_key(), &mut table, NOW);
    }
    assert_eq!(table.tracked_count(), MAX_TRACKED);
    let (_, moved) = beacon(20, 4193, NOW + 5, &["2001:db8:2::1"]);
    let update = handle_datagram(moved, &own_key(), &mut table, NOW + 5).expect("an update");
    assert_eq!(update.peer_key, peer);
    assert_eq!(update.endpoints, vec![ep("[2001:db8:2::1]:4193")]);
}

#[test]
fn endpoints_are_capped_per_peer() {
    let mut table = LanTable::new();
    let (peer, b) = beacon(
        2,
        4193,
        NOW,
        &["2001:db8::1", "2001:db8::2", "2001:db8::3", "2001:db8::4"],
    );
    handle_datagram(b, &own_key(), &mut table, NOW).expect("the first one");
    assert_eq!(table.endpoints_for(&peer).len(), 4);
}

#[test]
fn a_full_table_takes_a_newcomer_once_something_expired() {
    let mut table = LanTable::new();
    for i in 0..MAX_TRACKED {
        let (_, b) = beacon(20 + i as u8, 4193, NOW, &["2001:db8::1"]);
        handle_datagram(b, &own_key(), &mut table, NOW);
    }
    let later = NOW + ENTRY_TTL + 1;
    let (peer, b) = beacon(200, 4193, later, &["2001:db8::7"]);
    assert!(handle_datagram(b, &own_key(), &mut table, later).is_some());
    assert_eq!(table.tracked_count(), 1);
    assert_eq!(table.endpoints_for(&peer), &[ep("[2001:db8::7]:4193")]);
}

#[test]
fn a_node_announces_a_few_addresses_or_nothing() {
    let mut table = LanTable::new();
    assert!(announcement(&mut table, "me", 4193, None, NOW).is_none());
    assert!(announcement(&mut table, "me", 4193, Some(vec![]), NOW).is_none());
    let many: Vec<Ipv6Addr> = (1..=6).map(|i| ip(&format!("2001:db8::{i}"))).collect();
    let b = announcement(&mut table, "me", 4193, Some(many.clone()), NOW).unwrap();
    assert_eq!(b.node_public_key, "me");
    assert_eq!(b.listen_port, 4193);
    assert_eq!(b.seq, NOW);
    assert_eq!(b.addresses, many[..BEACON_MAX_ADDRS]);
}

#[test]
fn announcing_forgets_who_was_not_heard() {
    let mut table = LanTable::new();
    let (_, b) = beacon(2, 4193, NOW, &["2001:db8::2"]);
    handle_datagram(b, &own_key(), &mut table, NOW);
    let _ = announcement(&mut table, "me", 4193, None, NOW + ENTRY_TTL + 1);
    assert_eq!(table.tracked_count(), 0);
}

#[test]
fn usable_addresses_become_endpoints_in_order() {
    let addrs = [ip("2001:db8::2"), ip("fe80::1"), ip("2001:db8::1")];
    assert_eq!(
        usable_endpoints(&addrs, 4193),
        vec![ep("[2001:db8::2]:4193"), ep("[2001:db8::1]:4193")]
    );
}
