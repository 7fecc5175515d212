//! The order in which endpoints are tried.

use hextet::addr::{is_usable_endpoint_addr, Ipv6Addr, SocketAddrV6};
use hextet::cache::CachedEndpoint;
use hextet::candidates::{
    build_candidates, contains_endpoint, normalize, same_list, CandidateSources, Source,
    MAX_CANDIDATES,
};

fn ip(s: &str) -> Ipv6Addr {
    let (head, tail) = s.split_once("::").unwrap_or((s, ""));
    let groups = |t: &str| -> Vec<u128> {
        t.split(':')
            .filter(|g| !g.is_empty())
            .map(|g| u128::from_str_radix(g, 16).unwrap())
            .collect()
    };
    let mut bits: u128 = 0;
    for (i, g) in groups(head).iter().enumerate() {
        bits |= g << (112 - 16 * i);
    }
    for (i, g) in groups(tail).iter().rev().enumerate() {
        bits |= g << (16 * i);
    }
    Ipv6Addr::new(bits)
}

fn ep(s: &str) -> SocketAddrV6 {
    let (host, port) = s.rsplit_once(':').unwrap();
    let host = host.trim_start_matches('[').trim_end_matches(']');
    SocketAddrV6::new(ip(host), port.parse().unwrap(), 0, 0)
}

fn lan(list: &[SocketAddrV6]) -> Vec<(Source, SocketAddrV6)> {
    list.iter().map(|e| (Source::Lan, *e)).collect()
}

fn from_configured(configured: &[SocketAddrV6]) -> CandidateSources<'_> {
    CandidateSources {
        configured,
        ..Default::default()
    }
}

#[test]
fn empty_inputs_give_empty_output() {
    assert!(build_candidates(&CandidateSources::default()).is_empty());
}

#[test]
fn last_good_comes_first() {
    let configured = vec![ep("[2001:db8::1]:4193"), ep("[2001:db8::2]:4193")];
    let out = build_candidates(&CandidateSources {
        last_good: Some(ep("[2001:db8::2]:4193")),
        configured: &configured,
        ..Default::default()
    });
    assert_eq!(out[0], ep("[2001:db8::2]:4193"));
    assert_eq!(out[1], ep("[2001:db8::1]:4193"));
    assert_eq!(out.len(), 2);
}

#[test]
fn configured_order_is_preserved() {
    let configured = vec![
        ep("[2001:db8::1]:4193"),
        ep("[2001:db8::2]:4193"),
        ep("[2001:db8::3]:4193"),
    ];
    let out = build_candidates(&from_configured(&configured));
    assert_eq!(out, configured);
}

#[test]
fn discovered_outranks_configured() {
    let configured = vec![ep("[2001:db8::1]:4193")];
    let discovered = lan(&[ep("[2001:db8:9::9]:4193")]);
    let out = build_candidates(&CandidateSources {
        discovered: &discovered,
        configured: &configured,
        ..Default::default()
    });
    assert_eq!(
        out,
        vec![ep("[2001:db8:9::9]:4193"), ep("[2001:db8::1]:4193")]
    );
}

#[test]
fn last_good_still_outranks_discovered() {
    let discovered = lan(&[ep("[2001:db8:9::9]:4193")]);
    let out = build_candidates(&CandidateSources {
        last_good: Some(ep("[2001:db8::1]:4193")),
        discovered: &discovered,
        ..Default::default()
    });
    assert_eq!(out[0], ep("[2001:db8::1]:4193"));
}

#[test]
fn cached_follow_configured_newest_first() {
    let configured = vec![ep("[2001:db8::1]:4193")];
    let cached = vec![
        CachedEndpoint {
            endpoint: ep("[2001:db8::7]:4193"),
            last_seen_unix: 100,
        },
        CachedEndpoint {
            endpoint: ep("[2001:db8::9]:4193"),
            last_seen_unix: 900,
        },
    ];
    let out = build_candidates(&CandidateSources {
        configured: &configured,
        cached: &cached,
        ..Default::default()
    });
    assert_eq!(
        out,
        vec![
            ep("[2001:db8::1]:4193"),
            ep("[2001:db8::9]:4193"),
            ep("[2001:db8::7]:4193"),
        ]
    );
}

#[test]
fn duplicates_across_sources_are_deduped() {
    let one = ep("[2001:db8::1]:4193");
    let configured = vec![one];
    let discovered = lan(&[one]);
    let cached = vec![CachedEndpoint {
        endpoint: one,
        last_seen_unix: 5,
    }];
    let out = build_candidates(&CandidateSources {
        last_good: Some(one),
        discovered: &discovered,
        configured: &configured,
        cached: &cached,
        relay: None,
    });
    assert_eq!(out, vec![one]);
}

#[test]
fn output_is_capped() {
    let configured: Vec<SocketAddrV6> = (1..=20)
        .map(|i| ep(&format!("[2001:db8::{i:x}]:4193")))
        .collect();
    let out = build_candidates(&from_configured(&configured));
    assert_eq!(out.len(), MAX_CANDIDATES);
    assert_eq!(out[0], configured[0]);
}

#[test]
fn cap_favours_higher_ranked_sources() {
    let configured: Vec<SocketAddrV6> = (1..=20)
        .map(|i| ep(&format!("[2001:db8::{i:x}]:4193")))
        .collect();
    let discovered = lan(&[ep("[2001:db8:9::9]:4193")]);
    let out = build_candidates(&CandidateSources {
        discovered: &discovered,
        configured: &configured,
        ..Default::default()
    });
    assert_eq!(out.len(), MAX_CANDIDATES);
    assert_eq!(out[0], ep("[2001:db8:9::9]:4193"));
}

#[test]
fn normalize_clears_flowinfo_and_scope() {
    let raw = SocketAddrV6::new(ip("2001:db8::1"), 4193, 7, 3);
    let n = normalize(raw);
    assert_eq!(n.flowinfo, 0);
    assert_eq!(n.scope_id, 0);
    assert_eq!(n.port, 4193);
    assert_eq!(n.ip, ip("2001:db8::1"));
    assert_eq!(n, normalize(SocketAddrV6::new(raw.ip, 4193, 0, 9)));
    assert_eq!(normalize(n), n);
}

#[test]
fn a_relay_keeps_its_place_behind_the_direct_ones() {
    let configured: Vec<SocketAddrV6> = (1..=20)
        .map(|i| ep(&format!("[2001:db8::{i:x}]:4193")))
        .collect();
    let relay = ep("[2001:db8:f::1]:40000");
    let out = build_candidates(&CandidateSources {
        configured: &configured,
        relay: Some(relay),
        ..Default::default()
    });
    assert_eq!(out.len(), MAX_CANDIDATES);
    assert_eq!(out[MAX_CANDIDATES - 1], relay);
    assert_eq!(out[..MAX_CANDIDATES - 1], configured[..MAX_CANDIDATES - 1]);
}

#[test]
fn nothing_is_dropped_within_the_limit() {
    let configured = vec![ep("[2001:db8::1]:1"), ep("[2001:db8::2]:1")];
    let discovered = vec![
        (Source::Lan, ep("[2001:db8::3]:1")),
        (Source::Dht, ep("[2001:db8::4]:1")),
    ];
    let cached = vec![CachedEndpoint {
        endpoint: ep("[2001:db8::5]:1"),
        last_seen_unix: 1,
    }];
    let out = build_candidates(&CandidateSources {
        last_good: Some(ep("[2001:db8::6]:1")),
        discovered: &discovered,
        configured: &configured,
        cached: &cached,
        relay: Some(ep("[2001:db8::7]:1")),
    });
    let expected: Vec<SocketAddrV6> = ["6", "3", "4", "1", "2", "5", "7"]
        .iter()
        .map(|h| ep(&format!("[2001:db8::{h}]:1")))
        .collect();
    assert_eq!(out, expected);
}

#[test]
fn sources_have_names_and_an_order() {
    let all = [Source::Lan, Source::Gossip, Source::Dht, Source::Ddns];
    let names: Vec<&str> = all.iter().map(|s| s.as_str()).collect();
    assert_eq!(names, vec!["lan", "gossip", "dht", "ddns"]);
    let ranks: Vec<u8> = all.iter().map(|s| s.priority()).collect();
    assert_eq!(ranks, vec![0, 1, 2, 3]);
}

#[test]
fn lists_compare_by_content_and_order() {
    let (a, b) = (ep("[2001:db8::1]:1"), ep("[2001:db8::2]:1"));
    assert!(same_list(&[a, b], &[a, b]));
    assert!(!same_list(&[a, b], &[b, a]));
    assert!(!same_list(&[a], &[a, b]));
    assert!(contains_endpoint(&[a, b], b));
    assert!(!contains_endpoint(&[a], b));
}

#[test]
fn only_global_unicast_addresses_are_usable() {
    assert!(is_usable_endpoint_addr(ip("2001:db8::1")));
    for unusable in ["::", "::1", "fe80::1", "fd00::1", "fc00::1", "ff02::1"] {
        assert!(!is_usable_endpoint_addr(ip(unusable)), "{unusable}");
    }
}
