//! The decisions of the running node.

use hextet::addr::{Ipv6Addr, SocketAddr, SocketAddrV6};
use hextet::cache::EndpointCache;
use hextet::candidates::{DiscoveredEndpoints, Source};
use hextet::config::{Config, DdnsProvider, NodeConfig, Peer};
use hextet::daemon::discovery::{
    merge_report, on_discovered, reported_by_reliable_source,
    still_reported_by_authoritative_source,
};
use hextet::daemon::effects::{apply_actions, Effect};
use hextet::daemon::membership::on_membership_event;
use hextet::daemon::node::{Event, Kicks, Node};
use hextet::daemon::peer::{
    candidates_for, kernel_endpoint, relayed_via_endpoint, PeerRuntime, RelayLink, NUDGE_PORT,
    UPGRADE_MAX_RETRIES,
};
use hextet::daemon::relaying::{drive_relay, on_relay_registered, RelayCommand, RelayRegistered};
use hextet::daemon::startup::{find_relay, initial_peers, services};
use hextet::daemon::tick::{desired_routes, engine_state, find_status, tick_once};
use hextet::ddns::{self, DdnsEvent, DdnsPeer, UpdaterPlan};
use hextet::dht::{self, DhtEvent};
use hextet::fsm::{Action, Observation, PeerFsm, PunchState};
use hextet::gossip::{GossipEvent, NodeKey};
use hextet::members::{site_of, MemberRecord, MembersFile};
use hextet::relay_client::RelaySession;
use hextet::route::{allowed_ips_for, Ipv6Route};
use hextet::route_manager::RouteManager;
use hextet::state::STATE_VERSION;
use hextet::time::{Instant, SystemTime};
use hextet::wg::mock::MockBackend;
use hextet::wg::types::PeerStatus;

fn ip(s: &str) -> Ipv6Addr {
    let (head, tail) = s.split_once("::").unwrap_or((s, ""));
    let groups = |t: &str| -> Vec<u128> {
        t.split(':')
            .filter(|g| !g.is_empty())
            .map(|g| u128::from_str_radix(g, 16).unwrap())
            .collect()
    };
    let mut bits: u128 = 0;
    for (i, g) in groups(head).iter().enumerate() {
        bits |= g << (112 - 16 * i);
    }
    for (i, g) in groups(tail).iter().rev().enumerate() {
        bits |= g << (16 * i);
    }
    Ipv6Addr::new(bits)
}

fn ep(s: &str) -> SocketAddrV6 {
    let (host, port) = s.rsplit_once(':').unwrap();
    let host = host.trim_start_matches('[').trim_end_matches(']');
    SocketAddrV6::new(ip(host), port.parse().unwrap(), 0, 0)
}

fn wall() -> SystemTime {
    SystemTime::new(1_770_000_000, 0)
}

fn at(secs: u64) -> Instant {
    Instant {
        nanos: 1_000_000_000_000 + secs * 1_000_000_000,
    }
}

/// Does to a mock device what the effects ask for, and counts the rest.
fn perform(mock: &mut MockBackend, effects: Vec<Effect>) -> Vec<Effect> {
    let mut rest = Vec::new();
    for effect in effects {
        match effect {
            Effect::SetEndpoint {
                wg_public,
                endpoint,
            } => mock.set_peer_endpoint("hextet0", &wg_public, endpoint).unwrap(),
            Effect::RemovePeer { wg_public } => mock.remove_peer("hextet0", &wg_public).unwrap(),
            Effect::AddPeer(spec) => mock.add_peer("hextet0", &spec).unwrap(),
            other => rest.push(other),
        }
    }
    rest
}

#[test]
fn authoritative_source_excludes_gossip() {
    let target = ep("[2001:db8::1]:4193");
    let other = ep("[2001:db8::2]:4193");

    for source in [Source::Lan, Source::Dht, Source::Ddns] {
        assert!(
            still_reported_by_authoritative_source(&[(source, target)], target),
            "{source:?} is believed"
        );
    }
    assert!(!still_reported_by_authoritative_source(
        &[(Source::Gossip, target)],
        target
    ));
    assert!(!still_reported_by_authoritative_source(
        &[(Source::Gossip, other)],
        target
    ));
    assert!(still_reported_by_authoritative_source(
        &[(Source::Gossip, target), (Source::Dht, target)],
        target
    ));
}

#[test]
fn reliable_source_falls_back_to_gossip_without_authoritative() {
    let target = ep("[2001:db8::1]:4193");
    let other = ep("[2001:db8::2]:4193");
    assert!(reported_by_reliable_source(
        &[(Source::Gossip, target)],
        target
    ));
    assert!(!reported_by_reliable_source(
        &[(Source::Gossip, other)],
        target
    ));
    assert!(!reported_by_reliable_source(
        &[(Source::Gossip, target), (Source::Dht, other)],
        target
    ));
    assert!(reported_by_reliable_source(
        &[(Source::Gossip, other), (Source::Dht, target)],
        target
    ));
}

#[test]
fn authoritative_source_normalizes_endpoint() {
    let raw = SocketAddrV6::new(ip("2001:db8::1"), 4193, 7, 9);
    let clean = ep("[2001:db8::1]:4193");
    assert!(still_reported_by_authoritative_source(
        &[(Source::Dht, raw)],
        clean
    ));
}

fn node_key(name: &str) -> NodeKey {
    NodeKey {
        b64: name.into(),
        wg_public: [name.len() as u8; 32],
    }
}

fn admitted(name: &str) -> GossipEvent {
    GossipEvent::MemberAdmitted {
        node: node_key(name),
        name: "newbie".into(),
        address: ip("fd00::beef"),
    }
}

fn admit_keepalive(keepalive: u16) -> Option<u16> {
    let mut mock = MockBackend::default();
    let mut peers: Vec<PeerRuntime> = Vec::new();
    let mut members = MembersFile::new();
    let effects = on_membership_event(
        &mut peers,
        &mut members,
        admitted("K"),
        keepalive,
        wall(),
    );
    let rest = perform(&mut mock, effects);
    assert_eq!(rest.len(), 4);
    assert!(matches!(rest[0], Effect::SaveMembers));
    assert!(matches!(&rest[1], Effect::UpdateGossipTargets(t) if *t == [ip("fd00::beef")]));
    assert!(matches!(&rest[2], Effect::UpdateDhtPeers(k) if *k == ["K"]));
    assert!(matches!(&rest[3], Effect::UpdateDdnsPeers(d) if d.len() == 1 && d[0].fqdn.is_none()));

    assert_eq!(peers.len(), 1, "one more peer");
    assert_eq!(members.members.len(), 1, "one more member");
    let added = &mock.added_peers;
    assert_eq!(added.len(), 1, "added to the device once");
    assert_eq!(added[0].0, "hextet0");
    assert_eq!(added[0].1.allowed_ips, vec![(ip("fd00::"), 64)]);
    added[0].1.persistent_keepalive
}

#[test]
fn gossip_admission_follows_configured_keepalive() {
    assert_eq!(admit_keepalive(25), Some(25));
    assert_eq!(admit_keepalive(0), None);
}

fn relay_peer(
    fsm: PeerFsm,
    session: Option<RelaySession>,
    last_register: Option<Instant>,
) -> PeerRuntime {
    PeerRuntime {
        name: "nas".into(),
        key_b64: "peer".into(),
        wg_public: [0u8; 32],
        overlay: ip("fd00::2"),
        configured: vec![],
        routes: vec![],
        ddns: None,
        discovered: vec![],
        relay: Some(RelayLink {
            via_name: "relay".into(),
            control: vec![ep("[2001:db8::ff]:4196")],
            peer_public: [8; 32],
            session,
            pending: false,
            upgrade_pending: false,
            upgrade_retries: 0,
            last_register,
            retry_after: None,
        }),
        on_demand: false,
        keepalive: Some(25),
        fsm,
    }
}

fn session_at(e: SocketAddrV6) -> RelaySession {
    RelaySession {
        endpoint: e,
        control: e,
    }
}

fn connected(list: Vec<SocketAddrV6>, to: SocketAddrV6) -> PeerFsm {
    let mut fsm = PeerFsm::new(list, wall());
    let _ = fsm.tick(
        wall(),
        Observation {
            last_handshake: Some(wall()),
            kernel_endpoint: Some(to),
        },
    );
    assert_eq!(fsm.state(), PunchState::Connected { endpoint: to });
    fsm
}

#[test]
fn drive_relay_reregisters_when_session_goes_stale_while_probing() {
    let e = ep("[2001:db8::ff]:4196");
    let mut peer = relay_peer(PeerFsm::new(vec![e], wall()), Some(session_at(e)), Some(at(0)));
    let cache = EndpointCache::new();
    let drive = drive_relay(&mut peer, &cache, at(31), wall());
    assert!(drive.actions.is_empty(), "nothing for the state machine");
    assert_eq!(drive.command, RelayCommand::Register);
    assert!(peer.relay.as_ref().unwrap().pending);
}

#[test]
fn drive_relay_does_not_reregister_fresh_session_while_probing() {
    let e = ep("[2001:db8::ff]:4196");
    let mut peer = relay_peer(PeerFsm::new(vec![e], wall()), Some(session_at(e)), Some(at(0)));
    let cache = EndpointCache::new();
    let drive = drive_relay(&mut peer, &cache, at(0), wall());
    assert_eq!(drive.command, RelayCommand::Nothing);
    assert!(!peer.relay.as_ref().unwrap().pending);
}

#[test]
fn drive_relay_respects_cooldown_in_connected_renewal() {
    let e = ep("[2001:db8::ff]:4196");
    let mut peer = relay_peer(connected(vec![e], e), Some(session_at(e)), Some(at(0)));
    peer.relay.as_mut().unwrap().retry_after = Some(at(31 + 60));
    let cache = EndpointCache::new();
    let drive = drive_relay(&mut peer, &cache, at(31), wall());
    assert_eq!(drive.command, RelayCommand::Nothing);
    assert!(!peer.relay.as_ref().unwrap().pending);
    let drive = drive_relay(&mut peer, &cache, at(31 + 60), wall());
    assert_eq!(drive.command, RelayCommand::Register);
}

#[test]
fn relay_session_endpoint_change_moves_fsm_to_new_endpoint() {
    let e1 = ep("[2001:db8::ff]:4196");
    let e2 = ep("[2001:db8::ff]:4197");
    let fsm = connected(vec![e1, e2], e1);
    let mut peers = vec![relay_peer(fsm, Some(session_at(e1)), Some(at(0)))];
    let mut cache = EndpointCache::new();
    let mut backend = MockBackend::default();
    let effects = on_relay_registered(
        &mut peers,
        &mut cache,
        RelayRegistered {
            peer_key: "peer".into(),
            session: Some(session_at(e2)),
        },
        at(1),
        wall(),
    );
    perform(&mut backend, effects);

    let p = &peers[0];
    assert_eq!(p.relay.as_ref().unwrap().session.unwrap().endpoint, e2);
    assert!(matches!(p.fsm.state(), PunchState::Probing { .. }));
    assert_eq!(p.fsm.current_candidate(), Some(e2));
    let updates = &backend.endpoint_updates;
    assert_eq!(updates.len(), 1, "set once");
    assert_eq!(updates[0].2, e2);
    assert_eq!(backend.removed_peers.len(), 0, "no flush");
    assert_eq!(backend.added_peers.len(), 0, "no flush");
}

#[test]
fn rehandshake_readds_with_full_allowed_ips_and_keepalive() {
    let direct = ep("[2001:db8::1]:4193");
    let mut peer = relay_peer(PeerFsm::new(vec![direct], wall()), None, None);
    peer.routes = vec![Ipv6Route {
        prefix: ip("2001:db8:dead::"),
        prefix_len: 64,
    }];
    let mut cache = EndpointCache::new();
    let mut backend = MockBackend::default();
    let effects = apply_actions(&mut cache, &peer, &[Action::Rehandshake(direct)], 1);
    perform(&mut backend, effects);

    let removed = &backend.removed_peers;
    assert_eq!(removed.len(), 1);
    assert_eq!(removed[0].1, peer.wg_public);
    let added = &backend.added_peers;
    assert_eq!(added.len(), 1);
    assert_eq!(added[0].1.endpoint, Some(direct));
    let expected_ips = allowed_ips_for(site_of(peer.overlay), &peer.routes);
    assert_eq!(added[0].1.allowed_ips, expected_ips);
    assert!(added[0].1.allowed_ips.len() >= 2);
    assert_eq!(added[0].1.persistent_keepalive, peer.keepalive);
    assert_eq!(backend.endpoint_updates.len(), 0);
}

#[test]
fn candidates_for_narrows_to_relay_while_connected() {
    let relay_ep = ep("[2001:db8::ff]:4196");
    let direct = ep("[2001:db8::1]:4193");
    let session = session_at(relay_ep);
    let cache = EndpointCache::new();
    let fsm = || PeerFsm::new(vec![direct], wall());

    let mut on_relay = relay_peer(fsm(), Some(session), Some(at(0)));
    on_relay.configured.push(direct);
    assert_eq!(candidates_for(&on_relay, &cache), vec![relay_ep]);

    let mut no_session = relay_peer(fsm(), None, None);
    no_session.configured.push(direct);
    let cands = candidates_for(&no_session, &cache);
    assert!(cands.contains(&direct));
    assert!(!cands.contains(&relay_ep));

    let mut upgrading = relay_peer(fsm(), Some(session), Some(at(0)));
    upgrading.configured.push(direct);
    upgrading.relay.as_mut().unwrap().upgrade_pending = true;
    let cands = candidates_for(&upgrading, &cache);
    assert!(cands.contains(&direct));
    assert!(cands.contains(&relay_ep));
}

#[test]
fn relay_endpoints_are_not_remembered() {
    let relay_ep = ep("[2001:db8::ff]:4196");
    let direct = ep("[2001:db8::1]:4193");
    let peer = relay_peer(PeerFsm::new(vec![], wall()), Some(session_at(relay_ep)), None);
    let mut cache = EndpointCache::new();
    assert!(apply_actions(&mut cache, &peer, &[Action::MarkGood(relay_ep)], 7).is_empty());
    assert!(cache.entry("peer").is_none());
    let effects = apply_actions(&mut cache, &peer, &[Action::MarkGood(direct)], 7);
    assert!(matches!(effects[..], [Effect::SaveCache]));
    assert_eq!(cache.entry("peer").unwrap().last_good, Some(direct));
    assert_eq!(cache.entry("peer").unwrap().seen[0].last_seen_unix, 7);
}

#[test]
fn peers_on_demand_are_not_nudged() {
    let mut peer = relay_peer(PeerFsm::new(vec![], wall()), None, None);
    let mut cache = EndpointCache::new();
    let effects = apply_actions(&mut cache, &peer, &[Action::Nudge], 1);
    let target = SocketAddrV6::new(ip("fd00::2"), NUDGE_PORT, 0, 0);
    assert!(matches!(effects[..], [Effect::Nudge(to)] if to == target));
    peer.on_demand = true;
    assert!(apply_actions(&mut cache, &peer, &[Action::Nudge], 1).is_empty());
}

#[test]
fn a_direct_connection_ends_the_relay() {
    let relay_ep = ep("[2001:db8::ff]:4196");
    let direct = ep("[2001:db8::1]:4193");
    let session = session_at(relay_ep);
    let mut peer = relay_peer(connected(vec![direct], direct), Some(session), Some(at(0)));
    peer.configured.push(direct);
    let drive = drive_relay(&mut peer, &EndpointCache::new(), at(1), wall());
    assert_eq!(drive.command, RelayCommand::Unregister(session));
    assert!(drive.actions.is_empty());
    assert!(peer.relay.as_ref().unwrap().session.is_none());
    assert_eq!(
        peer.fsm.state(),
        PunchState::Connected { endpoint: direct }
    );
}

#[test]
fn direct_candidates_get_their_chance_before_a_relay() {
    let direct = ep("[2001:db8::1]:4193");
    let mut peer = relay_peer(PeerFsm::new(vec![direct], wall()), None, None);
    let cache = EndpointCache::new();
    let cold = Observation {
        last_handshake: None,
        kernel_endpoint: None,
    };
    let mut now: i64 = 1_770_000_000;
    for round in 0..2u32 {
        let drive = drive_relay(&mut peer, &cache, at(0), wall());
        assert_eq!(drive.command, RelayCommand::Nothing, "round {round}");
        now += 3;
        peer.fsm.tick(SystemTime::new(now, 0), cold);
    }
    let drive = drive_relay(&mut peer, &cache, at(0), wall());
    assert_eq!(drive.command, RelayCommand::Register);
    let drive = drive_relay(&mut peer, &cache, at(0), wall());
    assert_eq!(drive.command, RelayCommand::Nothing, "one at a time");
}

#[test]
fn a_failed_registration_cools_down() {
    let direct = ep("[2001:db8::1]:4193");
    let mut peers = vec![relay_peer(PeerFsm::new(vec![direct], wall()), None, None)];
    peers[0].relay.as_mut().unwrap().pending = true;
    let mut cache = EndpointCache::new();
    let done = RelayRegistered {
        peer_key: "peer".into(),
        session: None,
    };
    assert!(on_relay_registered(&mut peers, &mut cache, done, at(5), wall()).is_empty());
    let link = peers[0].relay.as_ref().unwrap();
    assert!(!link.pending);
    assert_eq!(link.retry_after, Some(at(65)));
    assert!(link.session.is_none());
}

#[test]
fn attempts_to_leave_a_relay_are_bounded() {
    let relay_ep = ep("[2001:db8::ff]:4196");
    let direct = ep("[2001:db8::1]:4193");
    let cache = EndpointCache::new();
    let fsm = connected(vec![direct, relay_ep], relay_ep);
    let mut peer = relay_peer(fsm, Some(session_at(relay_ep)), Some(at(0)));
    peer.configured.push(direct);
    peer.relay.as_mut().unwrap().upgrade_pending = true;
    for n in 0..UPGRADE_MAX_RETRIES {
        let drive = drive_relay(&mut peer, &cache, at(1), wall());
        assert_eq!(
            drive.actions,
            vec![Action::Rehandshake(direct), Action::Nudge],
            "attempt {n}"
        );
        peer.fsm = connected(vec![direct, relay_ep], relay_ep);
    }
    let drive = drive_relay(&mut peer, &cache, at(1), wall());
    assert!(drive.actions.is_empty());
    assert!(!peer.relay.as_ref().unwrap().upgrade_pending);
    assert_eq!(relayed_via_endpoint(&peer), Some(relay_ep));
}

fn news(source: Source, list: &[SocketAddrV6]) -> DiscoveredEndpoints {
    DiscoveredEndpoints {
        source,
        peer_key: "peer".into(),
        endpoints: list.to_vec(),
    }
}

#[test]
fn news_on_a_relay_starts_an_upgrade() {
    let relay_ep = ep("[2001:db8::ff]:4196");
    let direct = ep("[2001:db8::1]:4193");
    let mut peers = vec![relay_peer(
        connected(vec![relay_ep], relay_ep),
        Some(session_at(relay_ep)),
        Some(at(0)),
    )];
    let mut cache = EndpointCache::new();
    let mut backend = MockBackend::default();
    let effects = on_discovered(&mut peers, &mut cache, news(Source::Dht, &[direct]), wall());
    perform(&mut backend, effects);
    assert!(peers[0].relay.as_ref().unwrap().upgrade_pending);
    assert_eq!(backend.removed_peers.len(), 1);
    assert_eq!(backend.added_peers[0].1.endpoint, Some(direct));
    assert_eq!(peers[0].fsm.current_candidate(), Some(direct));
}

#[test]
fn a_peer_that_moved_is_followed_and_its_old_place_forgotten() {
    let old = ep("[2001:db8::1]:4193");
    let new = ep("[2001:db8::2]:4193");
    let mut peers = vec![relay_peer(connected(vec![old], old), None, None)];
    let mut cache = EndpointCache::new();
    cache.record_good("peer", old, 1);
    let mut backend = MockBackend::default();
    let effects = on_discovered(&mut peers, &mut cache, news(Source::Dht, &[new]), wall());
    let rest = perform(&mut backend, effects);
    assert!(matches!(rest[0], Effect::SaveCache));
    assert_eq!(cache.entry("peer").unwrap().last_good, None);
    assert_eq!(peers[0].fsm.current_candidate(), Some(new));
    assert_eq!(backend.endpoint_updates.len(), 1);
    assert_eq!(backend.endpoint_updates[0].2, new);
}

#[test]
fn a_connection_that_is_still_reported_is_kept() {
    let here = ep("[2001:db8::1]:4193");
    let other = ep("[2001:db8::2]:4193");
    let mut peers = vec![relay_peer(connected(vec![here], here), None, None)];
    let mut cache = EndpointCache::new();
    let update = news(Source::Lan, &[other, here]);
    assert!(on_discovered(&mut peers, &mut cache, update, wall()).is_empty());
    assert_eq!(peers[0].fsm.state(), PunchState::Connected { endpoint: here });
    assert_eq!(peers[0].fsm.candidates_len(), 2);
}

#[test]
fn news_replaces_what_its_own_layer_said() {
    let (a, b, c) = (
        ep("[2001:db8::1]:1"),
        ep("[2001:db8::2]:1"),
        ep("[2001:db8::3]:1"),
    );
    let known = vec![(Source::Lan, a), (Source::Dht, b)];
    assert_eq!(
        merge_report(&known, Source::Gossip, &vec![c]),
        vec![(Source::Lan, a), (Source::Gossip, c), (Source::Dht, b)]
    );
    assert_eq!(
        merge_report(&known, Source::Lan, &vec![]),
        vec![(Source::Dht, b)]
    );
    assert_eq!(
        merge_report(&known, Source::Dht, &vec![c, a]),
        vec![(Source::Lan, a), (Source::Dht, c), (Source::Dht, a)]
    );
}

#[test]
fn news_of_a_stranger_is_ignored() {
    let mut peers = vec![relay_peer(PeerFsm::new(vec![], wall()), None, None)];
    let mut cache = EndpointCache::new();
    let mut update = news(Source::Lan, &[ep("[2001:db8::1]:1")]);
    update.peer_key = "stranger".into();
    assert!(on_discovered(&mut peers, &mut cache, update, wall()).is_empty());
    assert!(peers[0].discovered.is_empty());
}

#[test]
fn admission_is_idempotent_and_revocation_shuts_out() {
    let mut peers: Vec<PeerRuntime> = Vec::new();
    let mut members = MembersFile::new();
    on_membership_event(&mut peers, &mut members, admitted("K"), 25, wall());
    let again = on_membership_event(&mut peers, &mut members, admitted("K"), 25, wall());
    assert!(again.is_empty());
    assert_eq!(peers.len(), 1);

    let revoked = GossipEvent::Revoked {
        node: node_key("K"),
    };
    let effects = on_membership_event(&mut peers, &mut members, revoked, 25, wall());
    assert!(matches!(effects[0], Effect::RemovePeer { wg_public } if wg_public == [1; 32]));
    assert!(matches!(effects[1], Effect::SaveMembers));
    assert_eq!(effects.len(), 5);
    assert!(peers.is_empty());
    assert!(members.members.is_empty());

    let revoked = GossipEvent::Revoked {
        node: node_key("K"),
    };
    let effects = on_membership_event(&mut peers, &mut members, revoked, 25, wall());
    assert_eq!(effects.len(), 4, "the device is told, the members did not change");
}

#[test]
fn ipv4_endpoints_count_as_none() {
    assert_eq!(kernel_endpoint(None), None);
    assert_eq!(kernel_endpoint(Some(SocketAddr::V4 { ip: 1, port: 2 })), None);
    let raw = SocketAddrV6::new(ip("2001:db8::1"), 4193, 3, 4);
    assert_eq!(
        kernel_endpoint(Some(SocketAddr::V6(raw))),
        Some(ep("[2001:db8::1]:4193"))
    );
}

fn node_config() -> NodeConfig {
    NodeConfig {
        interface: "hextet0".into(),
        listen_port: 4193,
        keepalive: 25,
        probe_port: 4194,
        relay: false,
        relay_port: 4196,
        relay_allow: vec![],
        lan_discovery: true,
        lan_port: 4195,
        gossip: true,
        gossip_port: 4197,
        dht: false,
        ddns: false,
        ddns_fqdn: None,
        ddns_provider: DdnsProvider::Webhook,
        ddns_webhook_url: None,
        ddns_secret: None,
        ddns_zone: None,
        http_addr: None,
        http_port: None,
    }
}

fn configured_peer(seed: u8, relay: bool) -> Peer {
    Peer {
        name: format!("peer-{seed}"),
        key_b64: format!("K{seed}"),
        public_key: [seed; 32],
        wg_public: [seed + 100; 32],
        address: ip(&format!("fd00:0:0:{seed}::1")),
        site: ip(&format!("fd00:0:0:{seed}::")),
        endpoints: vec![ep(&format!("[2001:db8::{seed}]:4193"))],
        routes: vec![Ipv6Route {
            prefix: ip(&format!("2001:db8:{seed}::")),
            prefix_len: 64,
        }],
        keepalive: None,
        relay,
        relay_control: vec![ep(&format!("[2001:db8::{seed}]:4196"))],
        ddns: None,
    }
}

fn three_peers() -> Config {
    Config {
        node: node_config(),
        peers: vec![
            configured_peer(1, false),
            configured_peer(2, true),
            configured_peer(3, true),
        ],
    }
}

#[test]
fn the_first_other_relay_is_used() {
    let cfg = three_peers();
    let peers = initial_peers(
        &cfg,
        &EndpointCache::new(),
        &MembersFile::new(),
        &[],
        wall(),
    );
    let via: Vec<&str> = peers
        .iter()
        .map(|p| p.relay.as_ref().unwrap().via_name.as_str())
        .collect();
    assert_eq!(via, vec!["peer-2", "peer-3", "peer-2"]);
    assert_eq!(
        peers[0].relay.as_ref().unwrap().control,
        vec![ep("[2001:db8::2]:4196")]
    );
    assert_eq!(find_relay(&cfg.peers[..2], &[2; 32]), 2);
}

#[test]
fn members_that_are_not_configured_become_peers() {
    let cfg = three_peers();
    let mut members = MembersFile::new();
    for key in ["K1", "M1", "bad"] {
        members.upsert(MemberRecord {
            name: format!("member-{key}"),
            public_key: key.into(),
            address: ip("fd00::77"),
        });
    }
    let mut cache = EndpointCache::new();
    cache.record_good("M1", ep("[2001:db8::99]:4193"), 5);
    let keys = [Some([1; 32]), Some([77; 32]), None];
    let peers = initial_peers(&cfg, &cache, &members, &keys, wall());
    let names: Vec<&str> = peers.iter().map(|p| p.name.as_str()).collect();
    assert_eq!(names, vec!["peer-1", "peer-2", "peer-3", "member-M1"]);
    assert_eq!(peers[3].wg_public, [77; 32]);
    assert!(peers[3].relay.is_none());
    assert_eq!(
        peers[3].fsm.current_candidate(),
        Some(ep("[2001:db8::99]:4193"))
    );
}

#[test]
fn services_follow_the_configuration() {
    let cfg = three_peers();
    let cache = EndpointCache::new();
    let peers = initial_peers(&cfg, &cache, &MembersFile::new(), &[], wall());
    let interfaces = [(2u32, "eth0".to_owned()), (5u32, "eth1".to_owned())];
    let s = services(&cfg.node, &peers, Some(&interfaces));
    assert_eq!(s.probe, ep("[::]:4194"));
    assert!(s.relay.is_none());
    assert_eq!(s.lan.as_ref().unwrap().interfaces, vec![2, 5]);
    assert_eq!(s.gossip.as_ref().unwrap().targets.len(), 3);
    assert!(s.dht.is_none());
    assert!(s.ddns.is_none());
    assert!(s.http.is_none());
    assert!(services(&cfg.node, &peers, None).lan.is_none());
    assert!(services(&cfg.node, &peers, Some(&[])).lan.is_none());

    let mut node = node_config();
    node.relay = true;
    node.relay_allow = vec![[9; 32]];
    node.lan_discovery = false;
    node.gossip = false;
    node.dht = true;
    node.ddns = true;
    node.ddns_fqdn = Some("me.example".into());
    node.ddns_webhook_url = Some("https://example/hook".into());
    node.http_addr = Some(ip("::1"));
    node.http_port = Some(8080);
    let s = services(&node, &peers, Some(&interfaces));
    let (bind, policy) = s.relay.unwrap();
    assert_eq!(bind, ep("[::]:4196"));
    assert!(policy.allows(&[9; 32]));
    assert!(!policy.allows(&[1; 32]));
    assert!(s.lan.is_none());
    assert!(s.gossip.is_none());
    assert_eq!(s.dht.unwrap(), vec!["K1", "K2", "K3"]);
    let records = s.ddns.unwrap();
    assert!(matches!(records.updater, Some(UpdaterPlan::Webhook { .. })));
    assert_eq!(records.peers.len(), 3);
    assert_eq!(s.http, Some(ep("[::1]:8080")));
}

#[test]
fn an_updater_needs_what_its_provider_needs() {
    let mut node = node_config();
    assert!(ddns::updater_plan(&node).is_none());
    node.ddns_provider = DdnsProvider::Cloudflare;
    node.ddns_secret = Some("token".into());
    assert!(ddns::updater_plan(&node).is_none());
    node.ddns_zone = Some("zone".into());
    match ddns::updater_plan(&node) {
        Some(UpdaterPlan::Cloudflare { token, zone }) => {
            assert_eq!((token.as_str(), zone.as_str()), ("token", "zone"));
        }
        other => panic!("expected Cloudflare, got {other:?}"),
    }
}

#[test]
fn records_hold_a_few_endpoints_or_there_is_none() {
    let many: Vec<SocketAddrV6> = (1..=10).map(|i| ep(&format!("[2001:db8::{i:x}]:1"))).collect();
    assert!(dht::published(vec![]).is_none());
    assert_eq!(
        dht::published(many.clone()).unwrap(),
        many[..dht::MAX_PUBLISHED_ENDPOINTS]
    );
    assert!(ddns::published(vec![]).is_none());
    let record = ddns::published(many.clone()).unwrap();
    assert_eq!(record.endpoints, many[..ddns::MAX_PUBLISHED_ENDPOINTS]);
    assert_eq!(record.dropped, many.len() - ddns::MAX_PUBLISHED_ENDPOINTS);

    assert!(dht::looked_up("K".into(), vec![]).is_none());
    let DhtEvent::Discovered(d) = dht::looked_up("K".into(), many.clone()).unwrap();
    assert_eq!((d.source, d.endpoints.len()), (Source::Dht, 10));
    assert!(ddns::looked_up("K".into(), vec![]).is_none());
    let DdnsEvent::Discovered(d) = ddns::looked_up("K".into(), many).unwrap();
    assert_eq!((d.source, d.peer_key.as_str()), (Source::Ddns, "K"));

    let peers = [
        DdnsPeer {
            key_b64: "A".into(),
            fqdn: None,
        },
        DdnsPeer {
            key_b64: "B".into(),
            fqdn: Some("b.example".into()),
        },
    ];
    assert_eq!(
        ddns::lookup_targets(&peers),
        vec![("B".to_owned(), "b.example".to_owned())]
    );
}

fn status(seed: u8, endpoint: &str) -> PeerStatus {
    PeerStatus {
        wg_public: [seed + 100; 32],
        endpoint: Some(SocketAddr::V6(ep(endpoint))),
        last_handshake: Some(wall()),
        rx_bytes: 5,
        tx_bytes: 6,
    }
}

#[test]
fn a_tick_looks_at_every_peer() {
    let cfg = three_peers();
    let mut cache = EndpointCache::new();
    let mut peers = initial_peers(&cfg, &cache, &MembersFile::new(), &[], wall());
    let statuses = [status(2, "[2001:db8::2]:4193")];
    let out = tick_once(&mut peers, &mut cache, &statuses, at(0), wall());
    assert!(out.any_connected);
    assert_eq!(out.peers.len(), 3);
    assert!(matches!(out.peers[1].effects[..], [Effect::SaveCache]));
    assert!(out.peers[0].effects.is_empty());
    assert!(desired_routes(&peers[0]).is_empty());
    assert_eq!(desired_routes(&peers[1]), &cfg.peers[1].routes[..]);
    let out = tick_once(&mut peers, &mut cache, &statuses, at(1), wall());
    assert!(!out.any_connected);

    assert!(find_status(&statuses, &[7; 32]).is_none());
    let newer = [statuses[0], status(2, "[2001:db8::22]:1")];
    assert_eq!(
        find_status(&newer, &[102; 32]).unwrap().endpoint,
        newer[1].endpoint
    );

    let mut routes = RouteManager::new();
    routes.sync("K2", desired_routes(&peers[1]), 1);
    let now = SystemTime::new(1_770_000_007, 0);
    let state = engine_state(
        &peers,
        &cache,
        &routes,
        &statuses,
        "hextet0",
        ip("fd00::1"),
        "ME",
        now,
    );
    assert_eq!(state.version, STATE_VERSION);
    assert_eq!(state.updated_unix, 1_770_000_007);
    assert_eq!(state.node_public_key, "ME");
    let p = &state.peers[1];
    assert_eq!(p.punch_state, "connected");
    assert_eq!(p.endpoint_source, "config");
    assert_eq!(p.last_handshake_secs, Some(7));
    assert_eq!((p.rx_bytes, p.tx_bytes), (5, 6));
    assert_eq!(p.routes, cfg.peers[1].routes);
    assert_eq!(state.peers[0].punch_state, "probing");
    assert_eq!(state.peers[0].last_handshake_secs, None);
}

#[test]
fn a_relayed_connection_is_shown_as_such() {
    let relay_ep = ep("[2001:db8::ff]:4196");
    let peers = [relay_peer(
        connected(vec![relay_ep], relay_ep),
        Some(session_at(relay_ep)),
        None,
    )];
    let state = engine_state(
        &peers,
        &EndpointCache::new(),
        &RouteManager::new(),
        &[],
        "hextet0",
        ip("fd00::1"),
        "ME",
        wall(),
    );
    assert_eq!(state.peers[0].punch_state, "relayed");
    assert_eq!(state.peers[0].relay_via.as_deref(), Some("relay"));
    assert_eq!(state.peers[0].endpoint_source, "relay");
}

fn running() -> Node {
    Node::new(
        &three_peers(),
        EndpointCache::new(),
        MembersFile::new(),
        &[],
        wall(),
    )
}

const NO_KICKS: Kicks = Kicks {
    lan: false,
    gossip: false,
    dht: false,
    ddns: false,
};

#[test]
fn a_node_starts_by_trying_every_peer() {
    let mut node = running();
    let step = node.step(Event::Started, at(0), wall());
    assert_eq!(step.effects.len(), 6);
    assert!(step.ticks.is_empty());
    assert_eq!(step.kicks, NO_KICKS);
}

#[test]
fn a_change_of_addresses_makes_every_layer_speak() {
    let mut node = running();
    let step = node.step(Event::AddressesChanged, at(0), wall());
    assert_eq!(step.effects.len(), 6);
    assert_eq!(
        step.kicks,
        Kicks {
            lan: true,
            gossip: true,
            dht: true,
            ddns: true
        }
    );
}

#[test]
fn a_new_connection_makes_gossip_speak() {
    let mut node = running();
    let statuses = vec![status(1, "[2001:db8::1]:4193")];
    let step = node.step(Event::Tick(Some(statuses.clone())), at(0), wall());
    assert!(step.kicks.gossip);
    assert!(!step.kicks.lan);
    assert_eq!(step.ticks.len(), 3);
    let step = node.step(Event::Tick(Some(statuses)), at(1), wall());
    assert_eq!(step.kicks, NO_KICKS);
    let step = node.step(Event::Tick(None), at(2), wall());
    assert!(step.ticks.is_empty() && step.effects.is_empty());
}

#[test]
fn events_reach_the_right_peer_and_strangers_nobody() {
    let mut node = running();
    let update = |key: &str| DiscoveredEndpoints {
        source: Source::Lan,
        peer_key: key.into(),
        endpoints: vec![ep("[2001:db8:9::9]:4193")],
    };
    assert!(node
        .step(Event::Discovered(update("K9")), at(0), wall())
        .effects
        .is_empty());
    let step = node.step(Event::Discovered(update("K2")), at(0), wall());
    assert_eq!(step.effects.len(), 2);
    assert_eq!(node.peers[1].discovered.len(), 1);
    let gossip = Event::Gossip(GossipEvent::Discovered(update("K3")));
    node.step(gossip, at(0), wall());
    assert_eq!(node.peers[2].discovered.len(), 1);
    assert!(node.peers[0].discovered.is_empty());

    let done = RelayRegistered {
        peer_key: "K1".into(),
        session: Some(session_at(ep("[2001:db8::ff]:40000"))),
    };
    node.step(Event::RelayRegistered(done), at(0), wall());
    assert!(node.peers[0].relay.as_ref().unwrap().session.is_some());
}

#[test]
fn membership_grows_and_shrinks_by_gossip_alone() {
    let mut node = running();
    node.step(Event::Gossip(admitted("NEW")), at(0), wall());
    assert_eq!(node.peers.len(), 4);
    assert_eq!(node.members.members.len(), 1);
    let revoked = GossipEvent::Revoked {
        node: node_key("NEW"),
    };
    node.step(Event::Gossip(revoked), at(0), wall());
    assert_eq!(node.peers.len(), 3);
    for event in [Event::Started, Event::AddressesChanged, Event::Tick(Some(vec![]))] {
        node.step(event, at(1), wall());
        let keys: Vec<&str> = node.peers.iter().map(|p| p.key_b64.as_str()).collect();
        assert_eq!(keys, vec!["K1", "K2", "K3"]);
    }
}

#[test]
fn a_node_keeps_the_versions_of_its_files() {
    let mut cache = EndpointCache::new();
    cache.version = 7;
    let mut members = MembersFile::new();
    members.version = 9;
    let mut node = Node::new(&three_peers(), cache, members, &[], wall());
    node.step(Event::Gossip(admitted("NEW")), at(0), wall());
    assert_eq!((node.cache.version, node.members.version), (7, 9));
}

#[test]
fn a_revoked_node_stays_out_until_it_is_admitted_again() {
    let mut node = running();
    node.step(Event::Gossip(admitted("NEW")), at(0), wall());
    let revoked = GossipEvent::Revoked {
        node: node_key("NEW"),
    };
    node.step(Event::Gossip(revoked), at(0), wall());
    let other = GossipEvent::Revoked {
        node: node_key("K9"),
    };
    node.step(Event::Gossip(other), at(0), wall());
    node.step(Event::Gossip(admitted("OTHER")), at(0), wall());
    assert!(node.members.get("NEW").is_none());
    assert!(node.members.get("OTHER").is_some());
    node.step(Event::Gossip(admitted("NEW")), at(0), wall());
    assert!(node.members.get("NEW").is_some());
}
