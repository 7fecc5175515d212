//! What is remembered of the endpoints of peers.

use hextet::addr::{Ipv6Addr, SocketAddrV6};
use hextet::atomic::temporary_name;
use hextet::cache::{
    sort_newest_first, CachedEndpoint, EndpointCache, PeerCacheEntry, CACHE_SEEN_MAX,
};

fn ip(s: &str) -> Ipv6Addr {
    let (head, tail) = s.split_once("::").unwrap_or((s, ""));
    let groups = |t: &str| -> Vec<u128> {
        t.split(':')
            .filter(|g| !g.is_empty())
            .map(|g| u128::from_str_radix(g, 16).unwrap())
            .collect()
    };
    let mut bits: u128 = 0;
    for (i, g) in groups(head).iter().enumerate() {
        bits |= g << (112 - 16 * i);
    }
    for (i, g) in groups(tail).iter().rev().enumerate() {
        bits |= g << (16 * i);
    }
    Ipv6Addr::new(bits)
}

fn ep(s: &str) -> SocketAddrV6 {
    let (host, port) = s.rsplit_once(':').unwrap();
    let host = host.trim_start_matches('[').trim_end_matches(']');
    SocketAddrV6::new(ip(host), port.parse().unwrap(), 0, 0)
}

#[test]
fn record_then_roundtrip_through_disk() {
    let mut cache = EndpointCache::new();
    cache.record_good("peer-a", ep("[2001:db8::1]:4193"), 1000);

    assert_eq!(temporary_name(Some("endpoints.json")), ".endpoints.json.tmp");
    let loaded = EndpointCache::load(Some(cache));
    let entry = loaded.entry("peer-a").expect("entry exists");
    assert_eq!(entry.last_good, Some(ep("[2001:db8::1]:4193")));
    assert_eq!(entry.seen.len(), 1);
    assert_eq!(entry.seen[0].last_seen_unix, 1000);
    assert_eq!(loaded.version, 1);
}

#[test]
fn missing_file_yields_empty_cache() {
    let cache = EndpointCache::load(None);
    assert!(cache.peers.is_empty());
    assert_eq!(cache.version, 1);
}

/// A file that cannot be read as a cache counts as none.
#[test]
fn corrupt_file_yields_empty_cache() {
    let cache = EndpointCache::load(None);
    assert!(cache.peers.is_empty());
}

#[test]
fn unknown_version_yields_empty_cache() {
    let mut file = EndpointCache::new();
    file.version = 999;
    let cache = EndpointCache::load(Some(file));
    assert!(cache.peers.is_empty());
    assert_eq!(cache.version, 1);

    let mut file = EndpointCache::new();
    file.record_good("p", ep("[2001:db8::1]:4193"), 1);
    file.version = 999;
    let cache = EndpointCache::load(Some(file));
    assert!(cache.peers.is_empty());
    assert!(cache.entry("p").is_none());
}

#[test]
fn recording_same_endpoint_updates_timestamp_not_length() {
    let mut cache = EndpointCache::new();
    cache.record_good("p", ep("[2001:db8::1]:4193"), 10);
    cache.record_good("p", ep("[2001:db8::1]:4193"), 99);
    let entry = cache.entry("p").unwrap();
    assert_eq!(entry.seen.len(), 1);
    assert_eq!(entry.seen[0].last_seen_unix, 99);
}

#[test]
fn seen_is_newest_first_and_capped() {
    let mut cache = EndpointCache::new();
    for i in 0..(CACHE_SEEN_MAX as u64 + 5) {
        cache.record_good("p", ep(&format!("[2001:db8::{:x}]:4193", i + 1)), i);
    }
    let entry = cache.entry("p").unwrap();
    assert_eq!(entry.seen.len(), CACHE_SEEN_MAX);
    assert!(entry.seen[0].last_seen_unix > entry.seen[1].last_seen_unix);
    assert!(entry.seen.iter().all(|c| c.last_seen_unix >= 5));
}

#[test]
fn record_normalizes_endpoint() {
    let mut cache = EndpointCache::new();
    let raw = SocketAddrV6::new(ip("2001:db8::1"), 4193, 3, 5);
    cache.record_good("p", raw, 1);
    let entry = cache.entry("p").unwrap();
    assert_eq!(entry.last_good, Some(ep("[2001:db8::1]:4193")));
    assert_eq!(entry.seen[0].endpoint.scope_id, 0);
}

#[test]
fn last_good_switches_when_a_new_endpoint_works() {
    let mut cache = EndpointCache::new();
    cache.record_good("p", ep("[2001:db8::1]:4193"), 1);
    cache.record_good("p", ep("[2001:db8:2::1]:4193"), 2);
    assert_eq!(
        cache.entry("p").unwrap().last_good,
        Some(ep("[2001:db8:2::1]:4193"))
    );
}

#[test]
fn evict_removes_from_both_last_good_and_seen() {
    let mut cache = EndpointCache::new();
    cache.record_good("p", ep("[2001:db8::1]:4193"), 1);
    cache.record_good("p", ep("[2001:db8::2]:4193"), 2);
    cache.evict("p", ep("[2001:db8::2]:4193"));
    let entry = cache.entry("p").unwrap();
    assert_eq!(entry.last_good, None, "evicted, so no longer the last good one");
    assert!(
        entry
            .seen
            .iter()
            .all(|c| c.endpoint != ep("[2001:db8::2]:4193")),
        "evicted, so no longer seen"
    );
    assert_eq!(entry.seen.len(), 1, "the other one stays");
    assert_eq!(entry.seen[0].endpoint, ep("[2001:db8::1]:4193"));
}

#[test]
fn evict_unknown_peer_is_a_noop() {
    let mut cache = EndpointCache::new();
    cache.evict("nobody", ep("[2001:db8::1]:4193"));
    assert!(cache.peers.is_empty());
}

#[test]
fn evicting_twice_is_evicting_once() {
    let mut cache = EndpointCache::new();
    cache.record_good("p", ep("[2001:db8::1]:4193"), 1);
    cache.record_good("p", ep("[2001:db8::2]:4193"), 2);
    cache.evict("p", ep("[2001:db8::1]:4193"));
    cache.evict("p", ep("[2001:db8::1]:4193"));
    let entry = cache.entry("p").unwrap();
    assert_eq!(entry.last_good, Some(ep("[2001:db8::2]:4193")));
    assert_eq!(entry.seen.len(), 1);
}

#[test]
fn other_peers_are_not_touched() {
    let mut cache = EndpointCache::new();
    cache.record_good("a", ep("[2001:db8::1]:4193"), 1);
    cache.record_good("b", ep("[2001:db8::2]:4193"), 2);
    cache.evict("a", ep("[2001:db8::1]:4193"));
    let b = cache.entry("b").unwrap();
    assert_eq!(b.last_good, Some(ep("[2001:db8::2]:4193")));
    assert_eq!(b.seen.len(), 1);
}

#[test]
fn an_older_success_is_filed_behind_a_newer_one() {
    let mut cache = EndpointCache::new();
    cache.record_good("p", ep("[2001:db8::1]:4193"), 50);
    cache.record_good("p", ep("[2001:db8::2]:4193"), 10);
    let entry = cache.entry("p").unwrap();
    assert_eq!(entry.last_good, Some(ep("[2001:db8::2]:4193")));
    let times: Vec<u64> = entry.seen.iter().map(|c| c.last_seen_unix).collect();
    assert_eq!(times, vec![50, 10]);
}

#[test]
fn sorting_is_stable_and_newest_first() {
    let at = |host: &str, t: u64| CachedEndpoint {
        endpoint: ep(&format!("[2001:db8::{host}]:1")),
        last_seen_unix: t,
    };
    let sorted = sort_newest_first(&[at("1", 5), at("2", 9), at("3", 5), at("4", 7)]);
    assert_eq!(sorted, vec![at("2", 9), at("4", 7), at("1", 5), at("3", 5)]);
}

#[test]
fn temporary_names_differ_and_default_to_state() {
    assert_eq!(temporary_name(None), ".state.tmp");
    assert_ne!(temporary_name(Some("a.json")), temporary_name(Some("b.json")));
}

#[test]
fn an_entry_in_disorder_is_put_in_order_by_the_next_success() {
    let mut cache = EndpointCache::new();
    let seen = (0..12u64)
        .map(|i| CachedEndpoint {
            endpoint: ep(&format!("[2001:db8::{i:x}]:4193")),
            last_seen_unix: i,
        })
        .collect();
    let entry = PeerCacheEntry {
        last_good: None,
        seen,
    };
    cache.peers.insert("peer-a".into(), entry);
    cache.record_good("peer-a", ep("[2001:db8::3]:4193"), 5);
    let entry = cache.entry("peer-a").unwrap();
    assert_eq!(entry.last_good, Some(ep("[2001:db8::3]:4193")));
    let times: Vec<u64> = entry.seen.iter().map(|c| c.last_seen_unix).collect();
    assert_eq!(times, vec![11, 10, 9, 8, 7, 6, 5, 5]);
}
