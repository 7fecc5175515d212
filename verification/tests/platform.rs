//! What is decided about the host.

use hextet::addr::{is_usable_endpoint_addr, prefix_mask, Ipv6Addr};
use hextet::platform::macos::{
    copy_ifname, iow, request_failed, IN6_ALIASREQ_SIZE, IN6_IFREQ_SIZE, SIOCAIFADDR_IN6,
    SIOCDIFADDR_IN6,
};
use hextet::platform::tun::{packet_written, requested_mtu, TunConfig, TunHandle};
use hextet::platform::windows::{ifindex_by_name, netsh_failed, quoted, Adapter};
use hextet::platform::{
    address_events, current_global_addrs, diff_addrs, multicast_interfaces, nl, os, AddrEvent,
    AddrEventKind, InterfaceAddr, InterfaceInfo, PlatformError,
};
use hextet::text::decimal_text;
use hextet::xtask::{command_line, e2e_scripts};

fn ip(s: &str) -> Ipv6Addr {
    let (head, tail) = s.split_once("::").unwrap_or((s, ""));
    let groups = |t: &str| -> Vec<u128> {
        t.split(':')
            .filter(|g| !g.is_empty())
            .map(|g| u128::from_str_radix(g, 16).unwrap())
            .collect()
    };
    let mut bits: u128 = 0;
    for (i, g) in groups(head).iter().enumerate() {
        bits |= g << (112 - 16 * i);
    }
    for (i, g) in groups(tail).iter().rev().enumerate() {
        bits |= g << (16 * i);
    }
    Ipv6Addr::new(bits)
}

#[test]
fn ioctl_numbers_match_darwin_headers() {
    assert_eq!(SIOCAIFADDR_IN6, 0x8080_691a);
    assert_eq!(SIOCDIFADDR_IN6, 0x8120_6919);
    assert_eq!(iow(b'i', 26, IN6_ALIASREQ_SIZE), SIOCAIFADDR_IN6);
    assert_eq!(iow(b'i', 25, IN6_IFREQ_SIZE), SIOCDIFADDR_IN6);
}

#[test]
fn request_numbers_hold_thirteen_bits_of_size() {
    assert_eq!(iow(1, 2, 0x2003), 0x8003_0102);
}

#[test]
fn prefix_mask_boundaries() {
    assert_eq!(prefix_mask(0), Ipv6Addr::new(0));
    assert_eq!(
        prefix_mask(48),
        Ipv6Addr::new(0xffff_ffff_ffff_0000_0000_0000_0000_0000)
    );
    assert_eq!(
        prefix_mask(64),
        Ipv6Addr::new(0xffff_ffff_ffff_ffff_0000_0000_0000_0000)
    );
    assert_eq!(
        prefix_mask(128),
        Ipv6Addr::new(0xffff_ffff_ffff_ffff_ffff_ffff_ffff_ffff)
    );
    assert_eq!(prefix_mask(1), ip("8000::"));
    assert_eq!(prefix_mask(127), Ipv6Addr::new(u128::MAX - 1));
    assert_eq!(prefix_mask(200), prefix_mask(128));
}

fn listed(name: &str, address: Option<&str>) -> InterfaceAddr {
    InterfaceAddr {
        name: name.into(),
        alias: format!("{name}-alias"),
        address: address.map(ip),
    }
}

#[test]
fn list_global_ipv6_filters_usable_and_excludes_interface() {
    let all = [
        listed("lo", Some("::1")),
        listed("eth0", Some("2001:db8::9")),
        listed("eth0", Some("fe80::1")),
        listed("eth1", Some("2001:db8::2")),
        listed("eth1", Some("2001:db8::9")),
        listed("hextet0", Some("2001:db8::3")),
        listed("hextet0", Some("fd00::3")),
        listed("eth2", None),
    ];
    let found = current_global_addrs(&all, None);
    assert_eq!(
        found,
        vec![ip("2001:db8::2"), ip("2001:db8::3"), ip("2001:db8::9")]
    );
    for a in &found {
        assert!(is_usable_endpoint_addr(*a));
    }
    for name in ["hextet0", "hextet0-alias"] {
        let filtered = current_global_addrs(&all, Some(name));
        assert_eq!(filtered, vec![ip("2001:db8::2"), ip("2001:db8::9")]);
    }
}

#[test]
fn list_multicast_interfaces_filters_up_multicast_nonloopback() {
    let info = |index: Option<u32>, name: &str, up, multicast, loopback| InterfaceInfo {
        index,
        name: name.into(),
        alias: name.into(),
        up,
        multicast,
        loopback,
    };
    let all = [
        info(Some(1), "lo", true, true, true),
        info(Some(3), "eth1", true, true, false),
        info(Some(2), "eth0", true, true, false),
        info(Some(2), "eth0", true, true, false),
        info(Some(4), "down0", false, true, false),
        info(Some(5), "ptp0", true, false, false),
        info(None, "noindex", true, true, false),
        info(Some(2), "eth", true, true, false),
    ];
    let expected = vec![
        (2, "eth".to_owned()),
        (2, "eth0".to_owned()),
        (3, "eth1".to_owned()),
    ];
    assert_eq!(multicast_interfaces(&all, None), expected);
    let filtered = multicast_interfaces(&all, Some("eth0"));
    assert!(!filtered.iter().any(|(_, name)| name == "eth0"));
    assert_eq!(filtered.len(), 2);
}

fn diff_of_three() {
    let prev: Vec<Ipv6Addr> = ["2001:db8::1", "2001:db8::2", "2001:db8::3"]
        .iter()
        .map(|s| ip(s))
        .collect();
    let curr: Vec<Ipv6Addr> = ["2001:db8::2", "2001:db8::3", "2001:db8::4"]
        .iter()
        .map(|s| ip(s))
        .collect();

    let (added, removed) = diff_addrs(&prev, &curr);
    assert_eq!(added, vec![ip("2001:db8::4")]);
    assert_eq!(removed, vec![ip("2001:db8::1")]);

    let (added, removed) = diff_addrs(&prev, &prev);
    assert!(added.is_empty() && removed.is_empty());

    let (added, removed) = diff_addrs(&[], &prev);
    assert_eq!(added.len(), prev.len());
    assert!(removed.is_empty());
}

#[test]
fn macos_diff_addrs_detects_added_and_removed() {
    diff_of_three();
}

#[test]
fn windows_diff_addrs_detects_added_and_removed() {
    diff_of_three();
}

#[test]
fn differences_are_sorted_and_without_repetition() {
    let (a, b, c) = (ip("2001:db8::1"), ip("2001:db8::2"), ip("2001:db8::3"));
    let (added, removed) = diff_addrs(&[c, b, c], &[a, b, a]);
    assert_eq!(added, vec![a]);
    assert_eq!(removed, vec![c]);
    let (added, _) = diff_addrs(&[], &[c, a, b]);
    assert_eq!(added, vec![a, b, c]);
}

#[test]
fn departures_are_told_before_arrivals() {
    let (a, b) = (ip("2001:db8::1"), ip("2001:db8::2"));
    let event = |kind, address| AddrEvent {
        kind,
        address,
        if_index: 0,
    };
    assert_eq!(
        address_events(&[b], &[a]),
        vec![
            event(AddrEventKind::Removed, b),
            event(AddrEventKind::Added, a)
        ]
    );
    assert!(address_events(&[a], &[a]).is_empty());
}

#[test]
fn names_are_copied_with_zeros_behind() {
    let mut dst = [0xffu8; 16];
    copy_ifname(&mut dst, "utun3").unwrap();
    assert_eq!(&dst, b"utun3\0\0\0\0\0\0\0\0\0\0\0");
    copy_ifname(&mut dst, "123456789012345").unwrap();
    assert_eq!(&dst, b"123456789012345\0");
    let e = copy_ifname(&mut dst, "1234567890123456").unwrap_err();
    assert_eq!(e.message(), "interface 1234567890123456 not found");
    assert_eq!(&dst, b"123456789012345\0");
}

#[test]
fn failed_requests_tell_a_missing_interface() {
    for errno in [6, 19] {
        let e = request_failed(Some(errno), "utun9", "why".into());
        assert_eq!(e.message(), "interface utun9 not found");
    }
    assert_eq!(request_failed(Some(13), "u", "no".into()).message(), "os: no");
    assert_eq!(request_failed(None, "u", "no".into()).message(), "os: no");
}

#[test]
fn errors_say_what_happened_on_the_host() {
    assert_eq!(
        PlatformError::NotFound("x".into()).message(),
        "interface x not found"
    );
    assert_eq!(PlatformError::Unsupported.message(), "unsupported platform");
    assert_eq!(nl("oops".into()).message(), "netlink: oops");
    assert_eq!(os("oops".into()).message(), "os: oops");
    assert_eq!(PlatformError::Tun("oops".into()).message(), "tun: oops");
}

#[test]
fn an_mtu_is_left_to_the_system_or_fits() {
    let cfg = |mtu| TunConfig {
        name: "utun".into(),
        mtu,
    };
    assert_eq!(requested_mtu(&cfg(0)).unwrap(), None);
    assert_eq!(requested_mtu(&cfg(1400)).unwrap(), Some(1400));
    assert_eq!(requested_mtu(&cfg(65535)).unwrap(), Some(65535));
    match requested_mtu(&cfg(65536)) {
        Err(PlatformError::Tun(why)) => assert_eq!(why, "MTU 65536 超出 u16 范围"),
        other => panic!("expected an error, got {other:?}"),
    }
}

#[test]
fn a_packet_is_written_whole() {
    assert!(packet_written(1400, 1400).is_ok());
    match packet_written(12, 1400) {
        Err(PlatformError::Tun(why)) => assert_eq!(why, "短写: 写了 12/1400 字节"),
        other => panic!("expected an error, got {other:?}"),
    }
}

#[test]
fn a_device_has_the_name_that_the_system_gave_it() {
    let cfg = TunConfig {
        name: "utun".into(),
        mtu: 0,
    };
    assert_eq!(TunHandle::opened(&cfg, "utun5".into()).name(), "utun5");
    assert_eq!(TunHandle::opened(&cfg, "".into()).name(), "utun");
}

#[test]
fn adapters_are_found_by_either_name() {
    let adapter = |friendly: &str, guid: &str, ipv6_if_index| Adapter {
        friendly_name: friendly.into(),
        adapter_name: guid.into(),
        ipv6_if_index,
    };
    let all = [adapter("Ethernet", "{1}", 4), adapter("hextet0", "{2}", 7)];
    assert_eq!(ifindex_by_name(&all, "hextet0").unwrap(), 7);
    assert_eq!(ifindex_by_name(&all, "{1}").unwrap(), 4);
    let e = ifindex_by_name(&all, "wg0").unwrap_err();
    assert_eq!(e.message(), "interface wg0 not found");
}

#[test]
fn netsh_names_are_quoted_and_complaints_passed_on() {
    assert_eq!(quoted("hextet 0"), "\"hextet 0\"");
    let e = netsh_failed(&["interface", "ipv6"], "denied");
    assert_eq!(e.message(), "os: netsh interface ipv6 failed: denied");
}

#[test]
fn numbers_are_written_in_decimal() {
    for n in [0, 7, 10, 105, 4193, 65536, 1_000_000, u64::MAX] {
        assert_eq!(decimal_text(n), format!("{n}"));
    }
}

#[test]
fn scenarios_run_their_scripts() {
    assert_eq!(e2e_scripts("lan").unwrap(), vec!["scripts/netns-e2e-lan.sh"]);
    assert_eq!(e2e_scripts("static").unwrap(), vec!["scripts/netns-e2e.sh"]);
    assert_eq!(e2e_scripts("").unwrap(), e2e_scripts("all").unwrap());
    assert_eq!(e2e_scripts("all").unwrap().len(), 5);
    assert_eq!(
        e2e_scripts("nope").unwrap_err(),
        "unknown e2e scenario nope; use static|dynamic|doctor|lan|relay|all"
    );
}

#[test]
fn commands_are_shown_with_their_arguments() {
    assert_eq!(
        command_line("cargo", &["fmt", "--all", "--check"]),
        "cargo fmt --all --check"
    );
    assert_eq!(command_line("ls", &[]), "ls ");
}
