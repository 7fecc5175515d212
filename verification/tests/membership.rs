//! Members, and the gossip that admits and revokes them.

use hextet::addr::{Ipv6Addr, SocketAddrV6};
use hextet::candidates::Source;
use hextet::gossip::{
    handle_datagram, is_within_prefix, own_endpoint, plan_broadcast, screen_datagram, Broadcast,
    Entry, GossipEvent, MergeReport, NetworkPrefix, NodeKey,
};
use hextet::members::{site_of, MemberRecord, MembersFile, MEMBERS_VERSION};

fn ip(s: &str) -> Ipv6Addr {
    let (head, tail) = s.split_once("::").unwrap_or((s, ""));
    let groups = |t: &str| -> Vec<u128> {
        t.split(':')
            .filter(|g| !g.is_empty())
            .map(|g| u128::from_str_radix(g, 16).unwrap())
            .collect()
    };
    let mut bits: u128 = 0;
    for (i, g) in groups(head).iter().enumerate() {
        bits |= g << (112 - 16 * i);
    }
    for (i, g) in groups(tail).iter().rev().enumerate() {
        bits |= g << (16 * i);
    }
    Ipv6Addr::new(bits)
}

fn ep(s: &str) -> SocketAddrV6 {
    let (host, port) = s.rsplit_once(':').unwrap();
    let host = host.trim_start_matches('[').trim_end_matches(']');
    SocketAddrV6::new(ip(host), port.parse().unwrap(), 0, 0)
}

fn rec(name: &str, pk: &str) -> MemberRecord {
    MemberRecord {
        name: name.into(),
        public_key: pk.into(),
        address: ip("fd12:3456:78::1"),
    }
}

#[test]
fn upsert_inserts_then_updates() {
    let mut m = MembersFile::new();
    assert!(m.upsert(rec("a", "K1")));
    assert!(m.upsert(rec("b", "K2")));
    assert!(!m.upsert(MemberRecord {
        name: "a-renamed".into(),
        public_key: "K1".into(),
        address: ip("fd12:3456:78::2"),
    }));
    assert_eq!(m.members.len(), 2);
    assert_eq!(m.get("K1").unwrap().name, "a-renamed");
    assert_eq!(m.get("K1").unwrap().address, ip("fd12:3456:78::2"));
    assert_eq!(m.get("K2").unwrap().name, "b");
}

#[test]
fn remove_is_idempotent() {
    let mut m = MembersFile::new();
    m.upsert(rec("a", "K1"));
    assert!(m.remove("K1"));
    assert!(!m.remove("K1"));
    assert!(m.members.is_empty());
}

#[test]
fn roundtrip_through_disk() {
    let mut m = MembersFile::new();
    m.upsert(rec("nas", "K1"));
    let loaded = MembersFile::load(Some(m));
    assert_eq!(loaded.version, MEMBERS_VERSION);
    assert_eq!(loaded.members.len(), 1);
    assert_eq!(loaded.members[0].name, "nas");
    assert_eq!(loaded.members[0].public_key, "K1");
    assert_eq!(loaded.members[0].address, ip("fd12:3456:78::1"));
}

#[test]
fn missing_or_corrupt_file_yields_empty() {
    assert!(MembersFile::load(None).members.is_empty());
    assert_eq!(MembersFile::load(None).version, MEMBERS_VERSION);
    let mut old = MembersFile::default();
    old.version = 999;
    assert!(MembersFile::load(Some(old)).members.is_empty());
    let mut old = MembersFile::new();
    old.upsert(rec("nas", "K1"));
    old.version = 999;
    assert!(MembersFile::load(Some(old)).members.is_empty());
}

#[test]
fn site_of_masks_host_bits() {
    let addr = ip("fd12:3456:78:abcd::1234");
    let site = site_of(addr);
    assert_eq!(site, ip("fd12:3456:78:abcd::"));
    assert_eq!(addr.bits >> 64, site.bits >> 64);
    assert_eq!(site.bits as u64, 0);
    assert_eq!(site_of(site), site);
}

#[test]
fn removing_keeps_the_others_in_order() {
    let mut m = MembersFile::new();
    for k in ["K1", "K2", "K3"] {
        m.upsert(rec(k, k));
    }
    assert!(m.remove("K2"));
    assert!(m.get("K2").is_none());
    let left: Vec<&str> = m.members.iter().map(|r| r.public_key.as_str()).collect();
    assert_eq!(left, vec!["K1", "K3"]);
}

fn prefix() -> NetworkPrefix {
    NetworkPrefix::from_octets(&[0xfd, 0x12, 0x34, 0x56, 0x00, 0x78])
}

fn inside() -> Ipv6Addr {
    ip("fd12:3456:78:0:900::")
}

fn node(name: &str) -> NodeKey {
    NodeKey {
        b64: name.to_owned(),
        wg_public: [name.len() as u8; 32],
    }
}

fn endpoint_entry(name: &str, list: &[&str]) -> Option<Entry> {
    Some(Entry::Endpoint {
        node: node(name),
        endpoints: list.iter().map(|e| ep(e)).collect(),
    })
}

const APPLIED: MergeReport = MergeReport {
    applied: true,
    revoked: false,
    address: None,
};

const STALE: MergeReport = MergeReport {
    applied: false,
    revoked: false,
    address: None,
};

#[test]
fn within_prefix_detection() {
    let p = prefix();
    assert!(is_within_prefix(&ip("fd12:3456:78:0:100::"), &p));
    assert!(!is_within_prefix(&ip("2001:db8::1"), &p));
    assert!(!is_within_prefix(&ip("fd00::1"), &p));
}

#[test]
fn endpoint_entry_is_forwarded_as_discovered() {
    let entry = endpoint_entry("node-2", &["[2001:db8::2]:4193"]);
    let entry = screen_datagram(entry, inside(), &prefix(), "me").expect("for the store");
    match handle_datagram(entry, APPLIED).expect("an event") {
        GossipEvent::Discovered(d) => {
            assert_eq!(d.source, Source::Gossip);
            assert_eq!(d.peer_key, "node-2");
            assert_eq!(d.endpoints.len(), 1);
            assert_eq!(d.endpoints[0], ep("[2001:db8::2]:4193"));
        }
        other => panic!("expected Discovered, got {other:?}"),
    }
}

#[test]
fn own_endpoint_is_ignored() {
    let entry = endpoint_entry("me", &["[2001:db8::1]:4193"]);
    assert!(screen_datagram(entry, inside(), &prefix(), "me").is_none());
}

#[test]
fn out_of_prefix_source_is_dropped() {
    let entry = endpoint_entry("node-2", &["[2001:db8::2]:4193"]);
    assert!(screen_datagram(entry, ip("2001:db8::ff"), &prefix(), "me").is_none());
}

#[test]
fn member_entry_derives_address() {
    let entry = Some(Entry::Member {
        node: node("node-2"),
        name: "nas".into(),
    });
    let entry = screen_datagram(entry, inside(), &prefix(), "me").expect("for the store");
    let report = MergeReport {
        address: Some(ip("fd12:3456:78:77::1")),
        ..APPLIED
    };
    match handle_datagram(entry, report).expect("an event") {
        GossipEvent::MemberAdmitted {
            node,
            name,
            address,
        } => {
            assert_eq!(node.b64, "node-2");
            assert_eq!(name, "nas");
            assert!(is_within_prefix(&address, &prefix()));
        }
        other => panic!("expected MemberAdmitted, got {other:?}"),
    }
}

#[test]
fn revocation_is_forwarded() {
    let entry = Some(Entry::Revocation {
        node: node("node-2"),
    });
    let entry = screen_datagram(entry, inside(), &prefix(), "me").expect("for the store");
    let ev = handle_datagram(entry, APPLIED).expect("an event");
    assert!(matches!(ev, GossipEvent::Revoked { .. }));
}

#[test]
fn stale_entries_are_dropped() {
    for (report, expected) in [(APPLIED, true), (STALE, false)] {
        let entry = endpoint_entry("node-2", &["[2001:db8::2]:4193"]);
        let entry = screen_datagram(entry, inside(), &prefix(), "me").expect("for the store");
        assert_eq!(handle_datagram(entry, report).is_some(), expected);
    }
}

#[test]
fn a_revoked_node_is_not_admitted_again() {
    let entry = Entry::Member {
        node: node("node-2"),
        name: "nas".into(),
    };
    let report = MergeReport {
        applied: true,
        revoked: true,
        address: Some(ip("fd12:3456:78:77::1")),
    };
    assert!(handle_datagram(entry, report).is_none());
}

#[test]
fn a_member_without_an_address_is_not_admitted() {
    let entry = Entry::Member {
        node: node("node-2"),
        name: "nas".into(),
    };
    assert!(handle_datagram(entry, APPLIED).is_none());
}

#[test]
fn an_entry_without_endpoints_or_none_at_all_is_dropped() {
    assert!(screen_datagram(endpoint_entry("node-2", &[]), inside(), &prefix(), "me").is_none());
    assert!(screen_datagram(None, inside(), &prefix(), "me").is_none());
}

#[test]
fn numbers_of_own_entries_grow_within_one_second() {
    let mut seq: u64 = 0;
    let addrs = || Some(vec![ip("2001:db8::1"), ip("2001:db8::2"), ip("2001:db8::3")]);
    let first = own_endpoint(&mut seq, addrs(), 2, 1000).unwrap();
    assert_eq!(first.seq, 1000);
    assert_eq!(first.addrs, vec![ip("2001:db8::1"), ip("2001:db8::2")]);
    assert_eq!(own_endpoint(&mut seq, addrs(), 2, 1000).unwrap().seq, 1001);
    assert!(own_endpoint(&mut seq, None, 2, 1000).is_none());
    assert!(own_endpoint(&mut seq, Some(vec![]), 2, 1000).is_none());
    assert_eq!(seq, 1001);
    assert_eq!(own_endpoint(&mut seq, addrs(), 2, 2000).unwrap().seq, 2000);
}

#[test]
fn passing_on_news_leaves_the_own_number_alone() {
    let mut seq: u64 = 7;
    let addrs = || Some(vec![ip("2001:db8::1")]);
    assert!(matches!(
        plan_broadcast(false, &mut seq, addrs(), 4, 1000),
        Broadcast::Store
    ));
    assert_eq!(seq, 7);
    assert!(matches!(
        plan_broadcast(true, &mut seq, Some(vec![]), 4, 1000),
        Broadcast::Nothing
    ));
    assert_eq!(seq, 7);
    match plan_broadcast(true, &mut seq, addrs(), 4, 1000) {
        Broadcast::OwnAndStore(own) => assert_eq!(own.seq, 1000),
        other => panic!("expected an own entry, got {other:?}"),
    }
    assert_eq!(seq, 1000);
}
