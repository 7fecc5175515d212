//! The routes behind peers.

use hextet::addr::Ipv6Addr;
use hextet::route::{allowed_ips_for, contains_route, Ipv6Route};
use hextet::route_manager::{RouteManager, RouteStep, SyncOutcome};

fn ip(s: &str) -> Ipv6Addr {
    let (head, tail) = s.split_once("::").unwrap_or((s, ""));
    let groups = |t: &str| -> Vec<u128> {
        t.split(':')
            .filter(|g| !g.is_empty())
            .map(|g| u128::from_str_radix(g, 16).unwrap())
            .collect()
    };
    let mut bits: u128 = 0;
    for (i, g) in groups(head).iter().enumerate() {
        bits |= g << (112 - 16 * i);
    }
    for (i, g) in groups(tail).iter().rev().enumerate() {
        bits |= g << (16 * i);
    }
    Ipv6Addr::new(bits)
}

fn r(s: &str) -> Ipv6Route {
    let (prefix, len) = s.split_once('/').unwrap();
    Ipv6Route {
        prefix: ip(prefix),
        prefix_len: len.parse().unwrap(),
    }
}

/// A routing table that does as it is told, and remembers what it was told.
#[derive(Default)]
struct Mock {
    added: Vec<Ipv6Route>,
    removed: Vec<Ipv6Route>,
}

fn sync(mgr: &mut RouteManager, mock: &mut Mock, key: &str, desired: &[Ipv6Route]) -> SyncOutcome {
    let plan = mgr.plan(key, desired);
    for step in &plan {
        match step {
            RouteStep::Remove(route) => mock.removed.push(*route),
            RouteStep::Add(route) => mock.added.push(*route),
        }
    }
    mgr.sync(key, desired, plan.len())
}

#[test]
fn sync_installs_then_keeps_then_replaces() {
    let mut mgr = RouteManager::new();
    let mut mock = Mock::default();

    let desired = [r("2001:db8:dead::/64"), r("2001:db8:beef::/48")];
    let out = sync(&mut mgr, &mut mock, "k", &desired);
    assert_eq!(out.added.len(), 2);
    assert!(out.removed.is_empty());
    assert_eq!(mgr.installed_count(), 2);
    assert_eq!(mock.added.len(), 2);

    let out = sync(&mut mgr, &mut mock, "k", &desired);
    assert!(out.added.is_empty() && out.removed.is_empty());
    assert_eq!(mock.added.len(), 2);
    assert_eq!(mock.removed.len(), 0);

    let desired = [r("2001:db8:dead::/64"), r("2001:db8:cafe::/64")];
    let out = sync(&mut mgr, &mut mock, "k", &desired);
    assert_eq!(out.added, vec![r("2001:db8:cafe::/64")]);
    assert_eq!(out.removed, vec![r("2001:db8:beef::/48")]);
    assert_eq!(mgr.installed_count(), 2);
    assert_eq!(mock.added.len(), 3);
    assert_eq!(mock.removed.len(), 1);
    assert_eq!(mock.removed[0], r("2001:db8:beef::/48"));
}

#[test]
fn two_peers_are_tracked_independently() {
    let mut mgr = RouteManager::new();
    let mut mock = Mock::default();
    sync(&mut mgr, &mut mock, "a", &[r("2001:db8:dead::/64")]);
    sync(&mut mgr, &mut mock, "b", &[r("2001:db8:beef::/64")]);
    assert_eq!(mgr.installed_count(), 2);

    let removed = mgr.remove_peer("a");
    assert_eq!(mgr.installed_count(), 1);
    assert_eq!(removed.len(), 1);
    assert_eq!(removed[0], r("2001:db8:dead::/64"));
    assert_eq!(mgr.routes_of("b"), &[r("2001:db8:beef::/64")]);
}

#[test]
fn remove_peer_and_remove_all_are_idempotent() {
    let mut mgr = RouteManager::new();
    let mut mock = Mock::default();

    assert_eq!(mgr.remove_peer("nope").len(), 0);

    sync(&mut mgr, &mut mock, "k", &[r("2001:db8:dead::/64")]);
    assert_eq!(mgr.remove_peer("k").len(), 1);
    assert_eq!(mgr.remove_peer("k").len(), 0);

    sync(&mut mgr, &mut mock, "k", &[r("2001:db8:beef::/64")]);
    assert_eq!(mgr.remove_all(), vec![r("2001:db8:beef::/64")]);
    assert_eq!(mgr.installed_count(), 0);
    assert!(mgr.remove_all().is_empty());
}

#[test]
fn a_sync_that_was_interrupted_is_resumed() {
    let mut mgr = RouteManager::default();
    let mut mock = Mock::default();
    sync(&mut mgr, &mut mock, "k", &[r("2001:db8:1::/64"), r("2001:db8:2::/64")]);

    let desired = [r("2001:db8:3::/64"), r("2001:db8:4::/64")];
    let plan = mgr.plan("k", &desired);
    assert_eq!(
        plan,
        vec![
            RouteStep::Remove(r("2001:db8:1::/64")),
            RouteStep::Remove(r("2001:db8:2::/64")),
            RouteStep::Add(r("2001:db8:3::/64")),
            RouteStep::Add(r("2001:db8:4::/64")),
        ]
    );
    let out = mgr.sync("k", &desired, 1);
    assert_eq!(out.removed, vec![r("2001:db8:1::/64")]);
    assert!(out.added.is_empty());
    assert_eq!(mgr.routes_of("k"), &[r("2001:db8:2::/64")]);
    assert_eq!(mgr.plan("k", &desired), plan[1..]);
    let out = mgr.sync("k", &desired, 2);
    assert_eq!(out.removed, vec![r("2001:db8:2::/64")]);
    assert_eq!(out.added, vec![r("2001:db8:3::/64")]);
    assert_eq!(mgr.plan("k", &desired), plan[3..]);
}

#[test]
fn a_route_that_is_desired_twice_is_installed_once() {
    let mut mgr = RouteManager::new();
    let mut mock = Mock::default();
    let route = r("2001:db8:1::/64");
    let out = sync(&mut mgr, &mut mock, "k", &[route, route]);
    assert_eq!(out.added, vec![route]);
    assert_eq!(mgr.installed_count(), 1);
}

#[test]
fn a_peer_may_use_its_site_and_what_is_behind_it() {
    let routes = [r("2001:db8:1::/64"), r("2001:db8:2::/48")];
    assert_eq!(
        allowed_ips_for(ip("fd00:1::"), &routes),
        vec![
            (ip("fd00:1::"), 64),
            (ip("2001:db8:1::"), 64),
            (ip("2001:db8:2::"), 48),
        ]
    );
    assert!(contains_route(&routes, routes[1]));
    assert!(!contains_route(&routes, r("2001:db8:1::/48")));
}

#[test]
fn what_is_counted_is_what_removing_everything_removes() {
    let mut mgr = RouteManager::new();
    let mut mock = Mock::default();
    let (one, two, three) = (r("2001:db8:1::/64"), r("2001:db8:2::/64"), r("2001:db8:3::/64"));
    sync(&mut mgr, &mut mock, "a", &[one]);
    sync(&mut mgr, &mut mock, "b", &[two]);
    sync(&mut mgr, &mut mock, "a", &[one, three]);
    assert_eq!(mgr.installed_count(), 3);
    assert_eq!(mgr.remove_all(), vec![one, three, two]);
    assert_eq!(mgr.installed_count(), 0);
    assert!(mgr.routes_of("a").is_empty());
}
