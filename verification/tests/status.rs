//! What is shown of a node.

use hextet::addr::{Ipv6Addr, SocketAddrV6};
use hextet::cache::CachedEndpoint;
use hextet::candidates::{CandidateSources, Source};
use hextet::fsm::handshake_is_fresh;
use hextet::http::{allows_origin, serve_path, Served};
use hextet::state::{endpoint_source, unix_secs, STATE_VERSION};
use hextet::status::{
    build_report, classify, daemon_freshness, secs_since, ConfiguredPeer, DevicePeer, EnginePeer,
    EngineSnapshot,
};
use hextet::time::SystemTime;

fn ip(s: &str) -> Ipv6Addr {
    let (head, tail) = s.split_once("::").unwrap_or((s, ""));
    let groups = |t: &str| -> Vec<u128> {
        t.split(':')
            .filter(|g| !g.is_empty())
            .map(|g| u128::from_str_radix(g, 16).unwrap())
            .collect()
    };
    let mut bits: u128 = 0;
    for (i, g) in groups(head).iter().enumerate() {
        bits |= g << (112 - 16 * i);
    }
    for (i, g) in groups(tail).iter().rev().enumerate() {
        bits |= g << (16 * i);
    }
    Ipv6Addr::new(bits)
}

fn ep(s: &str) -> SocketAddrV6 {
    let (host, port) = s.rsplit_once(':').unwrap();
    let host = host.trim_start_matches('[').trim_end_matches(']');
    SocketAddrV6::new(ip(host), port.parse().unwrap(), 0, 0)
}

#[test]
fn endpoint_source_classification() {
    let configured = vec![ep("[2001:db8::1]:4193")];
    let discovered = vec![
        (Source::Lan, ep("[2001:db8:5::5]:4193")),
        (Source::Gossip, ep("[2001:db8:6::6]:4193")),
    ];
    let cached = vec![CachedEndpoint {
        endpoint: ep("[2001:db8::7]:4193"),
        last_seen_unix: 1,
    }];
    let sources = CandidateSources {
        configured: &configured,
        discovered: &discovered,
        cached: &cached,
        relay: Some(ep("[2001:db8:aa::1]:41234")),
        ..Default::default()
    };
    let source = |e: Option<SocketAddrV6>| endpoint_source(e, &sources);
    assert_eq!(source(None), "none");
    assert_eq!(source(Some(ep("[2001:db8:aa::1]:41234"))), "relay");
    assert_eq!(source(Some(ep("[2001:db8::1]:4193"))), "config");
    assert_eq!(source(Some(ep("[2001:db8:5::5]:4193"))), "lan");
    assert_eq!(source(Some(ep("[2001:db8:6::6]:4193"))), "gossip");
    assert_eq!(source(Some(ep("[2001:db8::7]:4193"))), "cache");
    assert_eq!(source(Some(ep("[2001:db8:9::9]:4193"))), "roamed");
}

#[test]
fn endpoint_source_prefers_config_over_lan() {
    let both = vec![(Source::Lan, ep("[2001:db8::1]:4193"))];
    let configured = vec![ep("[2001:db8::1]:4193")];
    let sources = CandidateSources {
        configured: &configured,
        discovered: &both,
        ..Default::default()
    };
    assert_eq!(
        endpoint_source(Some(ep("[2001:db8::1]:4193")), &sources),
        "config"
    );
}

#[test]
fn endpoint_source_ignores_scope_id_differences() {
    let configured = vec![ep("[2001:db8::1]:4193")];
    let sources = CandidateSources {
        configured: &configured,
        ..Default::default()
    };
    let with_scope = SocketAddrV6::new(ip("2001:db8::1"), 4193, 0, 4);
    assert_eq!(endpoint_source(Some(with_scope), &sources), "config");
}

#[test]
fn unix_secs_of_epoch_is_zero() {
    assert_eq!(unix_secs(SystemTime::new(0, 0)), 0);
    assert_eq!(unix_secs(SystemTime::new(42, 0)), 42);
    assert_eq!(unix_secs(SystemTime::new(42, 999_999_999)), 42);
    assert_eq!(unix_secs(SystemTime::new(-1, 500_000_000)), 0);
}

#[test]
fn classify_states() {
    let now = SystemTime::new(1000, 0);
    assert_eq!(classify(None, now), "no-handshake");
    assert_eq!(classify(Some(SystemTime::new(990, 0)), now), "connected");
    assert_eq!(classify(Some(SystemTime::new(819, 0)), now), "stale");
    assert_eq!(classify(Some(SystemTime::new(1010, 0)), now), "stale");
}

#[test]
fn daemon_freshness_bounds() {
    assert_eq!(daemon_freshness(1000, 1000), (true, 0));
    assert_eq!(daemon_freshness(1000, 1010), (true, 10));
    assert_eq!(daemon_freshness(1000, 1011), (false, 11));
    assert_eq!(daemon_freshness(2000, 1000), (true, 0));
}

#[test]
fn the_status_agrees_with_the_state_machine_on_the_past() {
    let now = SystemTime::new(1000, 0);
    for (secs, nanos) in [(1000, 0), (820, 1), (820, 0), (819, 999_999_999), (0, 0)] {
        let at = Some(SystemTime::new(secs, nanos));
        assert_eq!(
            classify(at, now) == "connected",
            handshake_is_fresh(at, now),
            "{secs}.{nanos}"
        );
    }
}

#[test]
fn seconds_since_a_time_are_whole_and_never_negative() {
    let now = SystemTime::new(1000, 500_000_000);
    assert_eq!(secs_since(None, now), None);
    assert_eq!(secs_since(Some(SystemTime::new(990, 600_000_000)), now), Some(9));
    assert_eq!(secs_since(Some(now), now), Some(0));
    assert_eq!(secs_since(Some(SystemTime::new(1001, 0)), now), None);
}

fn configured() -> Vec<ConfiguredPeer> {
    vec![ConfiguredPeer {
        name: "nas".into(),
        key_b64: "NAS".into(),
        wg_public: [7; 32],
        address: "fd12:3456:78:abcd::2".into(),
    }]
}

fn device_peer(wg_public: [u8; 32], endpoint: Option<&str>, rx: u64, tx: u64) -> DevicePeer {
    DevicePeer {
        wg_public,
        endpoint: endpoint.map(|e| e.to_owned()),
        last_handshake: None,
        rx_bytes: rx,
        tx_bytes: tx,
    }
}

#[test]
fn build_report_maps_known_and_unknown_peers() {
    let configured = configured();
    let device = [
        device_peer([7; 32], Some("[2001:db8::9]:4193"), 11, 22),
        device_peer([99; 32], None, 0, 0),
    ];
    let now = SystemTime::new(1_770_000_000, 0);
    let report = build_report(&configured, &device, None, "state.json", now);

    assert_eq!(report.peers.len(), 2);
    assert_eq!(report.peers[0].peer, "nas");
    assert_eq!(report.peers[0].address, configured[0].address);
    assert_eq!(report.peers[0].rx_bytes, 11);
    assert_eq!(report.peers[0].tx_bytes, 22);
    assert_eq!(report.peers[0].state, "no-handshake");
    assert_eq!(report.peers[0].endpoint.as_deref(), Some("[2001:db8::9]:4193"));
    assert_eq!(report.peers[1].peer, "<unknown>");
    assert_eq!(report.peers[1].address, "");
    assert!(report.daemon.is_none());
}

fn snapshot(version: u32, updated_unix: u64, peers: Vec<EnginePeer>) -> EngineSnapshot {
    EngineSnapshot {
        version,
        updated_unix,
        peers,
    }
}

fn engine_peer() -> EnginePeer {
    EnginePeer {
        public_key: "NAS".into(),
        punch_state: "relayed".into(),
        endpoint_source: "relay".into(),
        lan_endpoints: 1,
        gossip_endpoints: 2,
        ddns_endpoints: 3,
        relay_via: Some("relay-node".into()),
        routes: vec!["2001:db8:dead::/64".into()],
        candidates: 3,
        candidate_index: 1,
    }
}

#[test]
fn build_report_passes_through_engine_fields_and_daemon_freshness() {
    let updated_unix = 1_770_000_000u64;
    let state = snapshot(STATE_VERSION, updated_unix, vec![engine_peer()]);
    let device = [device_peer([7; 32], Some("[2001:db8::9]:4193"), 0, 0)];
    let now = SystemTime::new(updated_unix as i64, 0);
    let report = build_report(&configured(), &device, Some(&state), "/s/state.json", now);
    let daemon = report.daemon.as_ref().unwrap();
    assert!(daemon.running);
    assert_eq!(daemon.updated_secs_ago, 0);
    assert_eq!(daemon.state_file, "/s/state.json");

    let row = &report.peers[0];
    assert_eq!(row.endpoint_source.as_deref(), Some("relay"));
    assert_eq!(row.punch_state.as_deref(), Some("relayed"));
    assert_eq!(row.relay_via.as_deref(), Some("relay-node"));
    assert_eq!(row.lan_endpoints, Some(1));
    assert_eq!(row.gossip_endpoints, Some(2));
    assert_eq!(row.ddns_endpoints, Some(3));
    assert_eq!(row.candidates, Some(3));
    assert_eq!(row.candidate_index, Some(1));
    assert_eq!(row.routes, vec!["2001:db8:dead::/64".to_string()]);
}

#[test]
fn build_report_daemon_not_running_when_state_is_stale() {
    let state = snapshot(STATE_VERSION, 1_000_000, vec![]);
    let now = SystemTime::new(1_000_000 + 100, 0);
    let report = build_report(&configured(), &[], Some(&state), "state.json", now);
    let daemon = report.daemon.as_ref().unwrap();
    assert!(!daemon.running);
    assert_eq!(daemon.updated_secs_ago, 100);
}

#[test]
fn a_state_file_of_another_version_counts_as_none() {
    let state = snapshot(STATE_VERSION + 1, 1_000_000, vec![engine_peer()]);
    let device = [device_peer([7; 32], None, 0, 0)];
    let now = SystemTime::new(1_000_000, 0);
    let report = build_report(&configured(), &device, Some(&state), "state.json", now);
    assert!(report.daemon.is_none());
    assert!(report.peers[0].punch_state.is_none());
    assert!(report.peers[0].routes.is_empty());
}

#[test]
fn healthz_returns_ok() {
    assert_eq!(serve_path("/healthz", false), Served::Health);
    assert_eq!(serve_path("/healthz", true), Served::Health);
}

#[test]
fn api_status_returns_valid_report() {
    assert_eq!(serve_path("/api/status", false), Served::Status);
    assert_eq!(serve_path("/api/status", true), Served::Status);
    let now = SystemTime::new(1_770_000_000, 0);
    let report = build_report(&configured(), &[], None, "state.json", now);
    assert!(report.peers.is_empty());
    assert!(report.daemon.is_none());
}

#[test]
fn serves_static_index_when_web_dir_set() {
    assert_eq!(serve_path("/", true), Served::File);
    assert_eq!(serve_path("/assets/app.js", true), Served::File);
}

#[test]
fn no_static_fallback_when_web_dir_unset() {
    assert_eq!(serve_path("/", false), Served::NotFound);
}

#[test]
fn api_status_sets_cors_for_tauri_origin() {
    assert!(allows_origin("tauri://localhost"));
    assert!(allows_origin("http://tauri.localhost"));
}

#[test]
fn api_status_rejects_foreign_origin() {
    for origin in ["https://evil.example", "http://example.com"] {
        assert!(!allows_origin(origin));
    }
    assert!(!allows_origin("http://localhost"));
    assert!(!allows_origin(""));
}
