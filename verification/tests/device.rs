//! WireGuard devices: what they should be, and the back ends.

use hextet::addr::{Ipv6Addr, SocketAddr, SocketAddrV6};
use hextet::config::{Config, DdnsProvider, NodeConfig, Peer};
use hextet::route::{allowed_ips_for, Ipv6Route};
use hextet::spec::{build_device_spec, keepalive_opt, keepalive_secs, peer_keepalive_secs};
use hextet::time::SystemTime;
use hextet::wg::kernel::{iface, key_from_bytes, KernelBackend};
use hextet::wg::mock::MockBackend;
use hextet::wg::types::{DeviceSpec, PeerSpec, PeerStatus, WgError};
use hextet::wg_userspace::{
    device_peers, peer_result, peer_spec_to_peer, status_of, DeviceKind, PeerStats,
    UserspaceBackend,
};

fn ip(s: &str) -> Ipv6Addr {
    let (head, tail) = s.split_once("::").unwrap_or((s, ""));
    let groups = |t: &str| -> Vec<u128> {
        t.split(':')
            .filter(|g| !g.is_empty())
            .map(|g| u128::from_str_radix(g, 16).unwrap())
            .collect()
    };
    let mut bits: u128 = 0;
    for (i, g) in groups(head).iter().enumerate() {
        bits |= g << (112 - 16 * i);
    }
    for (i, g) in groups(tail).iter().rev().enumerate() {
        bits |= g << (16 * i);
    }
    Ipv6Addr::new(bits)
}

fn ep(s: &str) -> SocketAddrV6 {
    let (host, port) = s.rsplit_once(':').unwrap();
    let host = host.trim_start_matches('[').trim_end_matches(']');
    SocketAddrV6::new(ip(host), port.parse().unwrap(), 0, 0)
}

fn node_config() -> NodeConfig {
    NodeConfig {
        interface: "hextet0".into(),
        listen_port: 4193,
        keepalive: 25,
        probe_port: 4194,
        relay: false,
        relay_port: 4196,
        relay_allow: vec![],
        lan_discovery: true,
        lan_port: 4195,
        gossip: true,
        gossip_port: 4197,
        dht: true,
        ddns: false,
        ddns_fqdn: None,
        ddns_provider: DdnsProvider::Webhook,
        ddns_webhook_url: None,
        ddns_secret: None,
        ddns_zone: None,
        http_addr: None,
        http_port: None,
    }
}

fn config(keepalive: u16, peer_keepalive: Option<u16>, routes: &[Ipv6Route]) -> Config {
    let mut node = node_config();
    node.keepalive = keepalive;
    let peer = Peer {
        name: "nas".into(),
        key_b64: "NAS".into(),
        public_key: [1; 32],
        wg_public: [2; 32],
        address: ip("fd12:3456:78:abcd::2"),
        site: ip("fd12:3456:78:abcd::"),
        endpoints: vec![ep("[2001:db8::1]:4193")],
        routes: routes.to_vec(),
        keepalive: peer_keepalive,
        relay: false,
        relay_control: vec![],
        ddns: None,
    };
    Config {
        node,
        peers: vec![peer],
    }
}

fn r(s: &str) -> Ipv6Route {
    let (prefix, len) = s.split_once('/').unwrap();
    Ipv6Route {
        prefix: ip(prefix),
        prefix_len: len.parse().unwrap(),
    }
}

#[test]
fn device_spec_includes_advertised_routes_in_allowed_ips() {
    let routes = [r("2001:db8:dead::/64"), r("2001:db8:beef::/48")];
    let cfg = config(25, None, &routes);
    let spec = build_device_spec(&cfg, &[7; 32]);
    assert_eq!(spec.interface, "hextet0");
    assert_eq!(spec.listen_port, 4193);
    assert_eq!(spec.wg_secret, [7; 32]);
    assert_eq!(spec.peers.len(), 1);
    assert_eq!(spec.peers[0].wg_public, [2; 32]);
    assert_eq!(spec.peers[0].endpoint, Some(ep("[2001:db8::1]:4193")));
    let expected = allowed_ips_for(cfg.peers[0].site, &routes);
    assert_eq!(spec.peers[0].allowed_ips, expected);
    assert_eq!(spec.peers[0].allowed_ips.len(), 3);
    assert_eq!(spec.peers[0].allowed_ips[0], (cfg.peers[0].site, 64));
    assert_eq!(spec.peers[0].allowed_ips[1], (ip("2001:db8:dead::"), 64));
}

#[test]
fn keepalive_defaults_to_25() {
    let cfg = config(25, None, &[]);
    assert_eq!(cfg.node.keepalive, 25);
    assert_eq!(keepalive_secs(&cfg), Some(25));
    let spec = build_device_spec(&cfg, &[7; 32]);
    assert_eq!(spec.peers[0].persistent_keepalive, Some(25));
}

#[test]
fn keepalive_zero_means_on_demand() {
    let cfg = config(0, None, &[]);
    assert_eq!(cfg.node.keepalive, 0);
    assert_eq!(keepalive_secs(&cfg), None);
    let spec = build_device_spec(&cfg, &[7; 32]);
    assert_eq!(spec.peers[0].persistent_keepalive, None);
}

#[test]
fn keepalive_explicit_value_passthrough() {
    let cfg = config(110, None, &[]);
    assert_eq!(cfg.node.keepalive, 110);
    assert_eq!(keepalive_secs(&cfg), Some(110));
    let spec = build_device_spec(&cfg, &[7; 32]);
    assert_eq!(spec.peers[0].persistent_keepalive, Some(110));
}

#[test]
fn peer_keepalive_overrides_node_default() {
    let cfg = config(25, Some(110), &[]);
    assert_eq!(cfg.node.keepalive, 25, "the node's stays");
    assert_eq!(cfg.peers[0].keepalive, Some(110));
    let spec = build_device_spec(&cfg, &[7; 32]);
    assert_eq!(spec.peers[0].persistent_keepalive, Some(110));
}

#[test]
fn peer_keepalive_zero_means_on_demand_for_that_peer() {
    let cfg = config(25, Some(0), &[]);
    assert_eq!(cfg.node.keepalive, 25);
    assert_eq!(cfg.peers[0].keepalive, Some(0));
    let spec = build_device_spec(&cfg, &[7; 32]);
    assert_eq!(spec.peers[0].persistent_keepalive, None);
}

#[test]
fn peer_keepalive_none_falls_back_to_node_default() {
    let cfg = config(25, None, &[]);
    assert_eq!(cfg.peers[0].keepalive, None);
    let spec = build_device_spec(&cfg, &[7; 32]);
    assert_eq!(spec.peers[0].persistent_keepalive, Some(25));
}

#[test]
fn keepalive_intervals() {
    assert_eq!(keepalive_opt(0), None);
    assert_eq!(keepalive_opt(1), Some(1));
    let cfg = config(25, Some(0), &[]);
    assert_eq!(peer_keepalive_secs(&cfg.peers[0], 25), None);
    let cfg = config(25, None, &[]);
    assert_eq!(peer_keepalive_secs(&cfg.peers[0], 30), Some(30));
}

#[test]
fn a_peer_without_endpoints_starts_without_one() {
    let mut cfg = config(25, None, &[]);
    cfg.peers[0].endpoints.clear();
    assert_eq!(build_device_spec(&cfg, &[7; 32]).peers[0].endpoint, None);
}

#[test]
fn mock_records_applied_spec() {
    let mut mock = MockBackend::default();
    let spec = DeviceSpec {
        interface: "hextet0".into(),
        listen_port: 4193,
        wg_secret: [7u8; 32],
        peers: vec![],
    };
    let name = mock.apply(&spec).unwrap();
    assert_eq!(name, "hextet0");
    assert_eq!(mock.applied.len(), 1);
    assert_eq!(mock.applied[0].listen_port, 4193);
    assert!(mock.down("hextet0").is_ok());
}

#[test]
fn mock_records_endpoint_updates() {
    let mut mock = MockBackend::default();
    let key = [3u8; 32];
    let e = ep("[2001:db8::9]:4193");
    mock.set_peer_endpoint("hextet0", &key, e).unwrap();
    let recorded = &mock.endpoint_updates;
    assert_eq!(recorded.len(), 1);
    assert_eq!(recorded[0].0, "hextet0");
    assert_eq!(recorded[0].1, key);
    assert_eq!(recorded[0].2, e);
}

#[test]
fn mock_records_peers_and_reports_statuses() {
    let mut mock = MockBackend::default();
    let spec = PeerSpec {
        wg_public: [3; 32],
        endpoint: None,
        allowed_ips: vec![(ip("fd00::"), 64)],
        persistent_keepalive: Some(25),
    };
    mock.add_peer("hextet0", &spec).unwrap();
    mock.remove_peer("hextet0", &[3; 32]).unwrap();
    assert_eq!(mock.added_peers[0].1.allowed_ips, spec.allowed_ips);
    assert_eq!(mock.removed_peers, vec![("hextet0".to_owned(), [3; 32])]);
    mock.statuses.push(PeerStatus {
        wg_public: [3; 32],
        endpoint: None,
        last_handshake: None,
        rx_bytes: 1,
        tx_bytes: 2,
    });
    let statuses = mock.status("hextet0").unwrap();
    assert_eq!(statuses.len(), 1);
    assert_eq!(statuses[0].rx_bytes, 1);
}

/// A key goes through base64 and comes back with the same bytes.
#[test]
fn key_base64_bridge() {
    let bytes = [42u8; 32];
    let key = key_from_bytes(&bytes);
    assert_eq!(&key, &bytes);
    let mut bytes = [0u8; 32];
    for (i, b) in bytes.iter_mut().enumerate() {
        *b = (i * 7 + 251) as u8;
    }
    assert_eq!(key_from_bytes(&bytes), bytes);
}

#[test]
fn interface_names_are_short_and_plain() {
    assert!(iface("hextet0").is_ok());
    assert!(iface("123456789012345").is_ok());
    for bad in ["", "1234567890123456", "a b", "a/b", "a\0b", "a\tb", "a\nb", "a\rb", "a\u{c}b"] {
        let e = iface(bad).unwrap_err();
        assert_eq!(e.message(), format!("wireguard backend error: invalid interface name {bad}"));
    }
    assert!(iface("a\u{b}b").is_ok());
}

#[test]
fn resolve_maps_logical_name_to_real_device() {
    let mut backend = UserspaceBackend::new();
    assert_eq!(backend.opened_named("hextet0", "utun3"), "utun3");
    assert_eq!(backend.resolve("hextet0"), "utun3");
    assert_eq!(backend.resolve("utun3"), "utun3");
    assert_eq!(backend.resolve("unknown"), "unknown");
}

fn not_found<T>(r: Result<T, WgError>) -> bool {
    matches!(r, Err(WgError::NotFound(n)) if n == "hextet0")
}

/// Without a device, reading, changing and taking down all fail alike.
#[test]
fn operations_on_unknown_interface_err_without_root() {
    let mut backend = UserspaceBackend::default();
    assert!(not_found(backend.device("hextet0")));
    let peer = PeerSpec {
        wg_public: [0xab; 32],
        endpoint: None,
        allowed_ips: vec![],
        persistent_keepalive: None,
    };
    assert!(not_found(backend.add_peer("hextet0", &peer)));
    assert!(not_found(backend.down("hextet0")));
    let bad = PeerSpec {
        allowed_ips: vec![(ip("fd00::1"), 129)],
        ..peer
    };
    assert!(not_found(backend.add_peer("hextet0", &bad)));
}

#[test]
fn peer_spec_to_peer_maps_fields_and_rejects_bad_prefix() {
    let spec = PeerSpec {
        wg_public: [0xab; 32],
        endpoint: Some(ep("[2001:db8::9]:4193")),
        allowed_ips: vec![(ip("fd00::1"), 64), (ip("fd00:2::"), 128)],
        persistent_keepalive: Some(25),
    };
    let peer = peer_spec_to_peer(&spec).unwrap();
    assert_eq!(peer.public_key, [0xab; 32]);
    assert_eq!(peer.endpoint, Some(SocketAddr::V6(ep("[2001:db8::9]:4193"))));
    assert_eq!(peer.allowed_ips.len(), 2);
    assert_eq!(peer.allowed_ips[0].prefix, 64);
    assert_eq!(peer.allowed_ips[0].ip, ip("fd00::1"));
    assert_eq!(peer.allowed_ips[0].network(), ip("fd00::"));
    assert_eq!(peer.allowed_ips[1].prefix, 128);
    assert_eq!(peer.allowed_ips[1].network(), ip("fd00:2::"));
    assert_eq!(peer.keepalive, Some(25));

    let bad = PeerSpec {
        wg_public: [0xab; 32],
        endpoint: None,
        allowed_ips: vec![(ip("fd00::1"), 129)],
        persistent_keepalive: None,
    };
    match peer_spec_to_peer(&bad) {
        Err(WgError::Backend(why)) => assert_eq!(why, "非法 AllowedIPs 前缀: invalid prefix"),
        other => panic!("expected an error, got {other:?}"),
    }
}

#[test]
fn apply_with_fd_builds_device_and_status_works() {
    let mut backend = UserspaceBackend::new();
    let spec = DeviceSpec {
        interface: "hextet0".into(),
        listen_port: 41_932,
        wg_secret: [0x42u8; 32],
        peers: vec![PeerSpec {
            wg_public: [0xab; 32],
            endpoint: None,
            allowed_ips: vec![(ip("2001:db8::2"), 64)],
            persistent_keepalive: Some(25),
        }],
    };
    let peers = device_peers(&spec).unwrap();
    assert_eq!(peers.len(), 1);
    assert_eq!(peers[0].public_key, [0xab; 32]);
    assert_eq!(backend.opened_fd(&spec.interface), "hextet0");
    assert_eq!(
        backend.device("hextet0").unwrap(),
        ("hextet0".to_owned(), DeviceKind::Fd)
    );

    let stats = [PeerStats {
        public_key: peers[0].public_key,
        endpoint: None,
        handshake_age: None,
        rx_bytes: 0,
        tx_bytes: 0,
    }];
    let status = status_of(&stats, SystemTime::new(1_770_000_000, 0));
    assert_eq!(status.len(), 1);
    assert_eq!(status[0].wg_public, [0xab; 32]);

    assert!(backend.down("hextet0").is_ok());
    assert!(not_found(backend.device("hextet0")));
}

#[test]
fn a_named_device_answers_to_both_names_until_it_is_down() {
    let mut backend = UserspaceBackend::new();
    backend.opened_named("hextet0", "utun3");
    backend.opened_named("other", "utun4");
    for name in ["hextet0", "utun3"] {
        assert_eq!(
            backend.device(name).unwrap(),
            ("utun3".to_owned(), DeviceKind::Named)
        );
    }
    assert_eq!(backend.down("utun3").unwrap().0, "utun3");
    assert!(not_found(backend.device("hextet0")));
    assert_eq!(backend.resolve("hextet0"), "hextet0");
    assert_eq!(backend.device("other").unwrap().0, "utun4");
    assert_eq!(backend.device("utun4").unwrap().0, "utun4");
}

#[test]
fn one_bad_peer_fails_the_device() {
    let good = PeerSpec {
        wg_public: [1; 32],
        endpoint: None,
        allowed_ips: vec![(ip("fd00::"), 0)],
        persistent_keepalive: None,
    };
    let mut bad = good.clone();
    bad.allowed_ips.push((ip("fd00::"), 200));
    let mut spec = DeviceSpec {
        interface: "hextet0".into(),
        listen_port: 1,
        wg_secret: [0; 32],
        peers: vec![good],
    };
    assert_eq!(device_peers(&spec).unwrap()[0].allowed_ips[0].network(), ip("::"));
    spec.peers.push(bad);
    assert!(device_peers(&spec).is_err());
}

#[test]
fn an_operation_on_a_peer_that_is_not_there_fails() {
    assert!(peer_result(true).is_ok());
    assert_eq!(peer_result(false).unwrap_err().message(), "wireguard backend error: peer 不存在");
}

#[test]
fn handshake_ages_become_times() {
    let stats = |age: Option<u128>| {
        [PeerStats {
            public_key: [1; 32],
            endpoint: Some(SocketAddr::V6(ep("[2001:db8::9]:4193"))),
            handshake_age: age,
            rx_bytes: 11,
            tx_bytes: 22,
        }]
    };
    let now = SystemTime::new(1_000, 250_000_000);
    let s = status_of(&stats(Some(10_500_000_000)), now);
    assert_eq!(s[0].last_handshake, Some(SystemTime::new(989, 750_000_000)));
    assert_eq!(s[0].endpoint, Some(SocketAddr::V6(ep("[2001:db8::9]:4193"))));
    assert_eq!((s[0].rx_bytes, s[0].tx_bytes), (11, 22));
    let s = status_of(&stats(Some(u128::MAX)), now);
    assert_eq!(s[0].last_handshake, Some(SystemTime::new(0, 0)));
    let s = status_of(&stats(None), now);
    assert_eq!(s[0].last_handshake, None);
}

#[test]
fn errors_say_what_happened() {
    assert_eq!(
        WgError::NotFound("wg0".into()).message(),
        "interface wg0 not found"
    );
    assert_eq!(WgError::Backend("no".into()).message(), "wireguard backend error: no");
}

#[test]
fn the_kernel_is_told_all_of_a_device() {
    let mut spec = build_device_spec(&config(25, None, &[r("2001:db8:1::/48")]), &[9; 32]);
    let update = KernelBackend.apply(&spec).unwrap();
    assert_eq!(update.interface, "hextet0");
    assert_eq!(update.private_key, [9; 32]);
    assert_eq!(update.listen_port, 4193);
    assert_eq!(update.peers.len(), 1);
    let p = &update.peers[0];
    assert_eq!(p.key, [2; 32]);
    assert_eq!(p.endpoint, Some(SocketAddr::V6(ep("[2001:db8::1]:4193"))));
    assert_eq!(p.allowed_ips, spec.peers[0].allowed_ips);
    assert_eq!(p.keepalive, Some(25));
    spec.interface = "not a name".into();
    assert!(matches!(KernelBackend.apply(&spec), Err(WgError::Backend(_))));
}

#[test]
fn the_status_of_a_device_that_is_not_there() {
    assert!(KernelBackend.status("wg0", Some(vec![])).unwrap().is_empty());
    assert!(matches!(
        KernelBackend.status("wg0", None),
        Err(WgError::NotFound(n)) if n == "wg0"
    ));
    assert!(matches!(
        KernelBackend.status("w g", None),
        Err(WgError::Backend(_))
    ));
}

#[test]
fn the_kernel_keeps_its_devices() {
    match KernelBackend.down("wg0") {
        Err(WgError::Backend(why)) => assert_eq!(why, "delete the interface instead"),
        other => panic!("{other:?}"),
    }
}
