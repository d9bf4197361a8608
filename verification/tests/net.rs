use aggligator_transport::addr::{IpAddr, Ipv4Addr, Ipv6Addr, SocketAddr, SocketAddrV6};
use aggligator_transport::error::{TransportError, TransportErrorKind};
use aggligator_transport::link::{write_link, Direction, LinkFilter, LinkTag};
use aggligator_transport::net::{
    bind_addr_for, hosts_with_port, interface_index, interface_local_addr, interface_names_for_target, local_interfaces,
    resolve_hosts, IpVersion, NetworkInterface,
};
use aggligator_transport::vec_map::VecMap;

fn ip4(a: u8, b: u8, c: u8, d: u8) -> IpAddr {
    IpAddr::V4(Ipv4Addr::new(a, b, c, d))
}

fn ip6(bits: u128) -> IpAddr {
    IpAddr::V6(Ipv6Addr { bits })
}

fn iface(name: &[u8], addr: Vec<IpAddr>) -> NetworkInterface {
    NetworkInterface { name: name.to_vec(), addr, index: 0 }
}

#[test]
fn ip_versions() {
    assert_eq!(IpVersion::default(), IpVersion::Both);
    assert_eq!(IpVersion::from_only(false, false).unwrap(), IpVersion::Both);
    assert_eq!(IpVersion::from_only(true, false).unwrap(), IpVersion::IPv4);
    assert_eq!(IpVersion::from_only(false, true).unwrap(), IpVersion::IPv6);
    assert!(matches!(IpVersion::from_only(true, true), Err(TransportError::ExclusiveIpVersions)));
    assert!(IpVersion::IPv4.is_only_ipv4() && !IpVersion::IPv4.is_only_ipv6());
    assert!(IpVersion::IPv6.is_only_ipv6() && !IpVersion::IPv6.is_only_ipv4());
    assert!(!IpVersion::Both.is_only_ipv4() && !IpVersion::Both.is_only_ipv6());
}

#[test]
fn addresses() {
    assert_eq!(Ipv4Addr::new(1, 2, 3, 4).bits, 0x0102_0304);
    assert!(ip4(127, 9, 9, 9).is_loopback() && !ip4(128, 0, 0, 1).is_loopback());
    assert!(ip6(1).is_loopback() && !ip6(2).is_loopback());
    assert!(ip4(0, 0, 0, 0).is_unspecified() && ip6(0).is_unspecified());
    assert!(!ip4(0, 0, 0, 1).is_unspecified() && !ip6(1).is_unspecified());
    assert!(ip4(1, 1, 1, 1).is_ipv4() && ip6(1).is_ipv6());
    let a = SocketAddr::new(ip4(1, 2, 3, 4), 5);
    assert_eq!(a.ip(), ip4(1, 2, 3, 4));
    assert_eq!(a.port(), 5);
    assert!(a.is_ipv4() && !a.is_ipv6());
}

#[test]
fn endpoint_order() {
    let a = SocketAddr::new(ip4(9, 9, 9, 9), 9);
    let b = SocketAddr::new(ip6(0), 0);
    let c = SocketAddr::V6(SocketAddrV6 { ip: Ipv6Addr { bits: 0 }, port: 0, flowinfo: 0, scope_id: 1 });
    let d = SocketAddr::V6(SocketAddrV6 { ip: Ipv6Addr { bits: 0 }, port: 0, flowinfo: 1, scope_id: 0 });
    let sorted = [SocketAddr::new(ip4(9, 9, 9, 8), 10), a, b, c, d, SocketAddr::new(ip6(0), 1)];
    for i in 0..sorted.len() {
        for j in 0..sorted.len() {
            assert_eq!(sorted[i].is_before(&sorted[j]), i < j);
            assert_eq!(sorted[i] < sorted[j], i < j);
        }
    }
}

#[test]
fn useless_interfaces_are_dropped() {
    let kept = local_interfaces(vec![
        iface(b"ifb0", vec![]),
        iface(b"eth0", vec![]),
        iface(b"ifb", vec![]),
        iface(b"if", vec![]),
        iface(b"xifb", vec![]),
    ]);
    let names: Vec<Vec<u8>> = kept.into_iter().map(|i| i.name).collect();
    assert_eq!(names, vec![b"eth0".to_vec(), b"if".to_vec(), b"xifb".to_vec()]);
}

#[test]
fn interfaces_for_targets() {
    let interfaces = vec![
        iface(b"lo", vec![ip4(127, 0, 0, 1), ip6(1)]),
        iface(b"eth0", vec![ip4(0, 0, 0, 0), ip4(10, 0, 0, 5)]),
        iface(b"eth1", vec![ip6(99)]),
        iface(b"eth0", vec![ip4(10, 0, 0, 6)]),
        iface(b"down", vec![]),
    ];
    let names = |target| interface_names_for_target(&interfaces, target);
    assert_eq!(names(SocketAddr::new(ip4(8, 8, 8, 8), 1)), vec![b"eth0".to_vec()]);
    assert_eq!(names(SocketAddr::new(ip6(5), 1)), vec![b"eth1".to_vec()]);
    assert_eq!(names(SocketAddr::new(ip4(127, 0, 0, 2), 1)), vec![b"lo".to_vec()]);
    assert_eq!(names(SocketAddr::new(ip6(1), 1)), vec![b"lo".to_vec()]);
}

#[test]
fn local_addresses() {
    let interfaces = vec![
        iface(b"eth0", vec![ip6(7), ip4(0, 0, 0, 0)]),
        iface(b"eth0", vec![ip4(10, 0, 0, 6), ip4(10, 0, 0, 7)]),
    ];
    assert_eq!(interface_local_addr(&interfaces, b"eth0", ip4(1, 1, 1, 1)), Some(ip4(10, 0, 0, 6)));
    assert_eq!(interface_local_addr(&interfaces, b"eth0", ip6(3)), Some(ip6(7)));
    assert_eq!(interface_local_addr(&interfaces, b"eth1", ip6(3)), None);
    assert!(matches!(
        bind_addr_for(&Some(interfaces), &Some(b"eth1".to_vec()), SocketAddr::new(ip6(3), 1)),
        Err(TransportError::NoInterfaceAddress(_))
    ));
}

#[test]
fn interface_numbers() {
    let mut interfaces = vec![iface(b"eth0", vec![]), iface(b"eth1", vec![]), iface(b"eth0", vec![])];
    interfaces[1].index = 4;
    interfaces[2].index = 5;
    assert_eq!(interface_index(&interfaces, b"eth1").unwrap(), 4);
    assert!(matches!(interface_index(&interfaces, b"eth0"), Err(TransportError::NoInterfaceIndex)));
    assert!(matches!(interface_index(&interfaces, b"eth2"), Err(TransportError::NoInterfaceIndex)));
}

#[test]
fn default_ports() {
    let hosts = vec!["a".to_string(), "b:1".to_string(), "".to_string(), "[::1]:9".to_string()];
    let with_port = hosts_with_port(hosts, 65535).unwrap();
    assert_eq!(with_port, vec!["a:65535", "b:1", ":65535", "[::1]:9"]);
    assert_eq!(hosts_with_port(with_port, 7).unwrap()[0], "a:65535");
    assert_eq!(hosts_with_port(vec!["h".to_string()], 0).unwrap()[0], "h:0");
    assert!(matches!(hosts_with_port(Vec::new(), 1), Err(TransportError::NoHosts)));

    // What names no port gets one, and then keeps it.
    let cases = [
        ("[::1]", "[::1]:5801"),
        ("::1", "[::1]:5801"),
        ("::", "[::]:5801"),
        ("2001:db8::1", "[2001:db8::1]:5801"),
        ("fe80::1:a", "[fe80::1:a]:5801"),
        ("1:2:3:4:5:6:7:8", "[1:2:3:4:5:6:7:8]:5801"),
        ("1:2:3:4:5:6:1.2.3.4", "[1:2:3:4:5:6:1.2.3.4]:5801"),
        ("::ffff:1.2.3.4", "[::ffff:1.2.3.4]:5801"),
        ("fe80::1%eth0", "fe80::1%eth0:5801"),
        ("fe80::1%3", "fe80::1%3:5801"),
        ("1.2.3.4", "1.2.3.4:5801"),
        ("h:", "h::5801"),
        ("h:+", "h:+:5801"),
    ];
    for (host, expected) in cases {
        let with_port = hosts_with_port(vec![host.to_string()], 5801).unwrap();
        assert_eq!(with_port, vec![expected]);
        assert_eq!(hosts_with_port(with_port, 7).unwrap(), vec![expected]);
    }
}

#[test]
fn named_ports_are_kept() {
    let hosts = [
        "fe80::1%eth0:5801",
        "fe80::1%3:5801",
        "1:2:3:4:5:6:7:8:9",
        "1:2:3:4:5:6:1.2.3.4:9",
        "::ffff:1.2.3.4:9",
        "::1:5801",
        "::1:55801",
        ":::5",
        "fe80::1:2",
        "1.2.3.4:5",
        "1:2:3",
        "cafe:1",
        "h:+80",
        "::1:+80",
        ":1",
    ];
    for host in hosts {
        assert_eq!(hosts_with_port(vec![host.to_string()], 7).unwrap(), vec![host]);
    }
}

#[test]
fn resolved_endpoints_are_sorted_and_distinct() {
    let a = SocketAddr::new(ip4(1, 0, 0, 1), 5);
    let b = SocketAddr::new(ip4(1, 0, 0, 1), 6);
    let c = SocketAddr::new(ip6(2), 1);
    let resolved = vec![c, b, a, b, c];
    assert_eq!(resolve_hosts(&resolved, IpVersion::Both), vec![a, b, c]);
    assert_eq!(resolve_hosts(&resolved, IpVersion::IPv4), vec![a, b]);
    assert_eq!(resolve_hosts(&resolved, IpVersion::IPv6), vec![c]);
}

#[test]
fn tags() {
    let remote = SocketAddr::new(ip4(1, 2, 3, 4), 5);
    let tag = LinkTag::new(Some(&b"eth0"[..]), remote, Direction::Outgoing);
    assert_eq!(tag.text("1.2.3.4:5"), "eth0             -> 1.2.3.4:5");
    assert_eq!(tag.user_data(), b"eth0".to_vec());
    assert_eq!(tag.direction(), Direction::Outgoing);
    assert_eq!(tag.clone(), tag);
    let tag = LinkTag::new(None, remote, Direction::Incoming);
    assert_eq!(tag.text("1.2.3.4:5"), format!("{:16} <- 1.2.3.4:5", ""));
    assert!(tag.user_data().is_empty());
    // Names that are no text, and names that are too long.
    let tag = LinkTag::new(Some(&[0xffu8, b'x'][..]), remote, Direction::Incoming);
    assert_eq!(tag.text("r"), format!("{:16} <- r", "\u{fffd}x"));
    let tag = LinkTag::new(Some(&b"a-name-of-17-char"[..]), remote, Direction::Incoming);
    assert_eq!(tag.text("r"), "a-name-of-17-char <- r");
    assert_eq!(write_link("w".to_string(), Direction::Outgoing, "r"), "w                -> r");
    assert_eq!(LinkFilter::default(), LinkFilter::InterfaceInterface);
}

#[test]
fn error_kinds_and_messages() {
    let e = TransportError::FecPayloadTooLarge(1501);
    assert_eq!(e.kind(), TransportErrorKind::InvalidInput);
    assert_eq!(e.message(""), "FEC payload too large: 1501 bytes exceeds maximum of 1500");
    let remote = SocketAddr::new(ip4(1, 2, 3, 4), 5);
    let e = TransportError::PhantunRefused(remote);
    assert_eq!(e.kind(), TransportErrorKind::ConnectionRefused);
    assert_eq!(e.message("1.2.3.4:5"), "phantun fake-TCP connect to 1.2.3.4:5 failed");
    let e = TransportError::PhantunNotConnected(remote);
    assert_eq!(e.kind(), TransportErrorKind::NotConnected);
    assert_eq!(e.message("1.2.3.4:5"), "no phantun connection to 1.2.3.4:5");
    let e = TransportError::NoInterfaceAddress(b"eth\xff".to_vec());
    assert_eq!(e.kind(), TransportErrorKind::AddrNotAvailable);
    assert_eq!(e.message(""), "no suitable address on interface eth\u{fffd}");
    let e = TransportError::InvalidFrameKind(207);
    assert_eq!(e.kind(), TransportErrorKind::Protocol);
    assert_eq!(e.message(""), "invalid datagram link frame kind 207");
    for (e, kind, text) in [
        (
            TransportError::ExclusiveIpVersions,
            TransportErrorKind::InvalidInput,
            "IPv4 and IPv6 options are mutually exclusive",
        ),
        (TransportError::NoHosts, TransportErrorKind::InvalidInput, "at least one host is required"),
        (TransportError::Unresolved, TransportErrorKind::NotFound, "cannot resolve IP address of host"),
        (TransportError::NoLocalAddress, TransportErrorKind::NotFound, "no local interface address found"),
        (TransportError::NoInterfaceIndex, TransportErrorKind::NotFound, "network interface index not found"),
        (TransportError::PhantunSendFailed, TransportErrorKind::BrokenPipe, "phantun send failed"),
        (TransportError::PhantunRecvFailed, TransportErrorKind::BrokenPipe, "phantun recv failed"),
        (TransportError::PhantunClosed, TransportErrorKind::BrokenPipe, "phantun accept loop closed"),
        (TransportError::AcceptorClosed, TransportErrorKind::BrokenPipe, "acceptor was closed"),
        (TransportError::WriterEnded, TransportErrorKind::BrokenPipe, "UDP writer task ended"),
        (
            TransportError::MissingPayload,
            TransportErrorKind::InvalidData,
            "data message header was not followed by payload",
        ),
        (TransportError::InvalidFrame, TransportErrorKind::Protocol, "invalid datagram link frame"),
        (TransportError::FrameTooShort, TransportErrorKind::Protocol, "data datagram link frame too short"),
    ] {
        assert_eq!(e.kind(), kind);
        assert_eq!(e.message("unused"), text);
    }
}

#[test]
fn maps_keep_one_value_per_key() {
    let mut m: VecMap<u16, u8> = VecMap::new();
    m.insert(1, 10);
    m.insert(2, 20);
    m.insert(1, 11);
    assert_eq!(m.len(), 2);
    assert_eq!(m.get(&1), Some(&11));
    assert!(m.contains_key(&2) && !m.contains_key(&3));
    assert_eq!(m.remove(&2), Some(20));
    assert_eq!(m.remove(&2), None);
    assert_eq!(m.len(), 1);
}
