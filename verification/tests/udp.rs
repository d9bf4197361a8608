use aggligator_transport::addr::{IpAddr, Ipv4Addr, Ipv6Addr, SocketAddr};
use aggligator_transport::error::TransportError;
use aggligator_transport::link::{Direction, LinkFilter, LinkInfo, LinkTag};
use aggligator_transport::net::{IpVersion, NetworkInterface};
use aggligator_transport::udp::connector::{UdpAcceptor, UdpBind, UdpConnector, UdpLinkTag};
use aggligator_transport::udp::frame::{
    decode_udp_datagram, encode_udp_frame, encode_udp_probe, is_transient_udp_send_error,
};
use aggligator_transport::udp::listener::{ListenAction, UdpConnectionKey, UdpListener};
use aggligator_transport::udp::session::{SendFailure, UdpSession, WriterAction, WriterEvent};

fn v4(a: u8, b: u8, c: u8, d: u8, port: u16) -> SocketAddr {
    SocketAddr::new(IpAddr::V4(Ipv4Addr::new(a, b, c, d)), port)
}

fn v6(bits: u128, port: u16) -> SocketAddr {
    SocketAddr::new(IpAddr::V6(Ipv6Addr { bits }), port)
}

#[test]
fn udp_session_probe_roundtrips() {
    let session_id = 0x1122_3344_5566_7788_99aa_bbcc_ddee_ff00;
    let datagram = encode_udp_probe(Some(session_id));
    let decoded = decode_udp_datagram(&datagram).unwrap();

    assert_eq!(decoded.session_id, Some(session_id));
    assert!(decoded.payload.is_none());
}

#[test]
fn udp_session_frame_roundtrips() {
    let session_id = 0xfedc_ba98_7654_3210_0123_4567_89ab_cdef;
    let payload = b"AGD1 payload".to_vec();
    let datagram = encode_udp_frame(Some(session_id), payload.clone());
    let decoded = decode_udp_datagram(&datagram).unwrap();

    assert_eq!(decoded.session_id, Some(session_id));
    assert_eq!(decoded.payload, Some(payload));
}

#[test]
fn udp_legacy_probe_and_frame_decode() {
    let decoded_probe = decode_udp_datagram(b"AGP1").unwrap();
    assert_eq!(decoded_probe.session_id, None);
    assert!(decoded_probe.payload.is_none());

    let legacy_payload = b"AGD1 legacy".to_vec();
    let decoded_frame = decode_udp_datagram(&legacy_payload).unwrap();
    assert_eq!(decoded_frame.session_id, None);
    assert_eq!(decoded_frame.payload, Some(legacy_payload));
}

#[test]
fn udp_decoder_ignores_unknown_datagrams() {
    assert!(decode_udp_datagram(b"not aggligator").is_none());
}

#[test]
fn probe_and_frame_bytes_are_exact() {
    let id = 0x0102_0304_0506_0708_090a_0b0c_0d0e_0f10;
    let header = [1u8, 2, 3, 4, 5, 6, 7, 8, 9, 10, 11, 12, 13, 14, 15, 16];
    assert_eq!(encode_udp_probe(None), b"AGP1".to_vec());
    assert_eq!(encode_udp_probe(Some(id)), [&b"AGP1"[..], &header[..]].concat());
    assert_eq!(encode_udp_frame(None, b"xyz".to_vec()), b"xyz".to_vec());
    assert_eq!(
        encode_udp_frame(Some(id), b"xyz".to_vec()),
        [&b"AGU1"[..], &header[..], &b"xyz"[..]].concat()
    );
}

#[test]
fn decoder_edge_cases() {
    // A probe with a session has exactly one size.
    assert!(decode_udp_datagram(b"AGP1x").is_none());
    let mut long_probe = encode_udp_probe(Some(7));
    long_probe.push(0);
    assert!(decode_udp_datagram(&long_probe).is_none());
    // A frame needs a whole header, but no payload.
    assert!(decode_udp_datagram(b"AGU1").is_none());
    let empty = decode_udp_datagram(&encode_udp_frame(Some(7), Vec::new())).unwrap();
    assert_eq!(empty.payload, Some(Vec::new()));
    // Nothing at all.
    assert!(decode_udp_datagram(b"").is_none());
    // The bare magic of a link frame.
    assert_eq!(decode_udp_datagram(b"AGD1").unwrap().payload, Some(b"AGD1".to_vec()));
}

#[test]
fn transient_errors() {
    assert!(is_transient_udp_send_error(true, None));
    for code in [55, 105, 10055] {
        assert!(is_transient_udp_send_error(false, Some(code)));
    }
    assert!(!is_transient_udp_send_error(false, Some(111)));
    assert!(!is_transient_udp_send_error(false, None));
}

#[test]
fn sessions_announce_frame_and_keep_alive() {
    let client = UdpSession::connect_with(9);
    assert_eq!(client.opening(), Some(encode_udp_probe(Some(9))));
    assert!(UdpSession::accept(Some(9)).opening().is_none());
    match client.write(WriterEvent::Datagram(b"hi".to_vec())) {
        WriterAction::Send(datagram) => assert_eq!(datagram, encode_udp_frame(Some(9), b"hi".to_vec())),
        WriterAction::Stop => panic!("must send"),
    }
    match client.write(WriterEvent::Silence) {
        WriterAction::Send(datagram) => assert_eq!(datagram, encode_udp_probe(Some(9))),
        WriterAction::Stop => panic!("must send"),
    }
    assert!(matches!(client.write(WriterEvent::Closed), WriterAction::Stop));
    assert_eq!(client.send_failed(true), SendFailure::Drop);
    assert_eq!(client.send_failed(false), SendFailure::Fail);
}

#[test]
fn reader_takes_only_its_own_session() {
    let session = UdpSession::connect_with(9);
    assert_eq!(session.read(&encode_udp_frame(Some(9), b"hi".to_vec())), Some(b"hi".to_vec()));
    assert!(session.read(&encode_udp_frame(Some(8), b"hi".to_vec())).is_none());
    assert!(session.read(&encode_udp_probe(Some(9))).is_none());
    assert!(session.read(b"AGD1 legacy").is_none());
    assert!(session.read(b"junk").is_none());
}

#[test]
fn random_sessions_differ() {
    let a = UdpSession::connect().unwrap();
    let b = UdpSession::connect().unwrap();
    assert!(a.connected && a.session_id.is_some());
    assert_ne!(a.session_id, b.session_id);
    assert_eq!(UdpSession::connect_drawn(Some(5)).unwrap().session_id, Some(5));
    assert!(UdpSession::connect_drawn(None).is_none());
}

#[test]
fn listener_sets_up_and_closes_sessions() {
    let mut listener = UdpListener::new();
    let remote = v4(10, 0, 0, 1, 4000);
    let key = UdpConnectionKey { remote, session_id: Some(5) };
    let second = 1_000_000_000u64;

    assert!(matches!(listener.on_datagram(b"junk", remote, 0), ListenAction::Ignore));

    let probe = encode_udp_probe(Some(5));
    match listener.on_datagram(&probe, remote, 0) {
        ListenAction::New(k, generation, payload) => {
            assert_eq!(k, key);
            assert_eq!(generation, 0);
            assert!(payload.is_none());
            listener.opened(k, generation);
        }
        _ => panic!("expected a new session"),
    }

    let frame = encode_udp_frame(Some(5), b"data".to_vec());
    match listener.on_datagram(&frame, remote, second) {
        ListenAction::Existing(k, payload) => {
            assert_eq!(k, key);
            assert_eq!(payload, Some(b"data".to_vec()));
        }
        _ => panic!("expected the existing session"),
    }

    // The end of another generation closes nothing.
    listener.cleanup(key, 1, second);
    assert!(matches!(listener.on_datagram(&frame, remote, second), ListenAction::Existing(_, _)));

    // After the end of this one the session is closed for a minute.
    listener.cleanup(key, 0, 2 * second);
    assert!(matches!(listener.on_datagram(&frame, remote, 61 * second), ListenAction::Ignore));
    match listener.on_datagram(&frame, remote, 62 * second) {
        ListenAction::New(_, generation, payload) => {
            assert_eq!(generation, 1);
            assert_eq!(payload, Some(b"data".to_vec()));
        }
        _ => panic!("expected a new session"),
    }

    // The same number from another endpoint is another session.
    assert!(matches!(
        listener.on_datagram(&frame, v4(10, 0, 0, 2, 4000), 62 * second),
        ListenAction::New(_, 2, _)
    ));
}

#[test]
fn failed_delivery_closes_a_session() {
    let mut listener = UdpListener::new();
    let remote = v4(10, 0, 0, 1, 4000);
    let key = UdpConnectionKey { remote, session_id: None };
    if let ListenAction::New(k, generation, _) = listener.on_datagram(b"AGD1 x", remote, 5) {
        listener.opened(k, generation);
    }
    listener.delivery_failed(key, 10);
    assert!(matches!(listener.on_datagram(b"AGD1 x", remote, 11), ListenAction::Ignore));
}

#[test]
fn connector_defaults_and_errors() {
    let c = UdpConnector::unresolved(vec!["server".to_string(), "other:7".to_string()], 5802, true).unwrap();
    assert_eq!(c.hosts, vec!["server:5802".to_string(), "other:7".to_string()]);
    assert_eq!(c.ip_version, IpVersion::Both);
    assert_eq!(c.resolve_interval, 10_000_000_000);
    assert_eq!(c.link_filter, LinkFilter::InterfaceInterface);
    assert!(c.multi_interface);
    assert_eq!(c.name(), "udp");
    assert_eq!(c.text(), "[server:5802, other:7]");
    assert!(matches!(UdpConnector::unresolved(Vec::new(), 1, true), Err(TransportError::NoHosts)));
    assert!(matches!(
        UdpConnector::new(Vec::new(), 1, &Vec::new(), true),
        Err(TransportError::NoHosts)
    ));
    assert!(matches!(
        UdpConnector::new(vec!["h".to_string()], 1, &Vec::new(), true),
        Err(TransportError::Unresolved)
    ));
    let one = UdpConnector::new(vec!["h".to_string()], 1, &vec![v4(1, 2, 3, 4, 1)], false).unwrap();
    assert_eq!(one.text(), "h:1");
    assert!(!one.multi_interface);
}

#[test]
fn connector_settings() {
    let mut c = UdpConnector::unresolved(vec!["h".to_string()], 1, true).unwrap();
    c.set_ip_version(IpVersion::IPv6);
    c.set_resolve_interval(3);
    c.set_link_filter(LinkFilter::InterfaceIp);
    c.set_multi_interface(false);
    assert_eq!(c.ip_version, IpVersion::IPv6);
    assert_eq!(c.resolve_interval, 3);
    assert_eq!(c.link_filter, LinkFilter::InterfaceIp);
    assert!(!c.multi_interface);
    assert_eq!(c.resolve(&vec![v4(1, 2, 3, 4, 1), v6(9, 1)]), vec![v6(9, 1)]);
}

#[test]
fn connector_tags_and_bind_endpoints() {
    let interfaces = vec![
        NetworkInterface { index: 0, name: b"eth0".to_vec(), addr: vec![IpAddr::V4(Ipv4Addr::new(10, 0, 0, 9))] },
        NetworkInterface { index: 0, name: b"eth1".to_vec(), addr: vec![IpAddr::V6(Ipv6Addr { bits: 77 })] },
    ];
    let target = v4(8, 8, 8, 8, 53);
    let mut c = UdpConnector::unresolved(vec!["h".to_string()], 1, true).unwrap();
    let tags = c.link_tags(&interfaces, &vec![target, target]);
    assert_eq!(tags, vec![UdpLinkTag::new(Some(&b"eth0"[..]), target, Direction::Outgoing)]);
    assert_eq!(c.connect(&tags[0], &Some(interfaces)).unwrap(), v4(10, 0, 0, 9, 0));
    match c.connect(&tags[0], &None) {
        Err(TransportError::NoInterfaceAddress(name)) => assert_eq!(name, b"eth0".to_vec()),
        _ => panic!("expected an error"),
    }

    c.set_multi_interface(false);
    let tags = c.link_tags(&Vec::new(), &vec![target]);
    assert_eq!(tags, vec![UdpLinkTag::new(None, target, Direction::Outgoing)]);
    assert_eq!(c.connect(&tags[0], &None).unwrap(), v4(0, 0, 0, 0, 0));
    let tag6 = LinkTag::new(None, v6(9, 9), Direction::Outgoing);
    assert_eq!(c.connect(&tag6, &None).unwrap(), v6(0, 0));
}

fn info(interface: Option<&[u8]>, remote: SocketAddr, data: &[u8]) -> LinkInfo {
    LinkInfo {
        tag: Some(LinkTag::new(interface, remote, Direction::Outgoing)),
        remote_user_data: data.to_vec(),
    }
}

#[test]
fn link_filters() {
    let mut c = UdpConnector::unresolved(vec!["h".to_string()], 1, true).unwrap();
    let new = info(Some(b"eth0"), v4(1, 1, 1, 1, 5), b"wan");
    let same_interfaces = info(Some(b"eth0"), v4(2, 2, 2, 2, 5), b"wan");
    let same_ip = info(Some(b"eth0"), v4(1, 1, 1, 1, 6), b"lan");
    let other = info(Some(b"eth1"), v4(1, 1, 1, 1, 5), b"wan");

    assert!(!c.link_filter(&new, &vec![same_interfaces]));
    assert!(c.link_filter(&new, &vec![same_ip, other]));

    c.set_link_filter(LinkFilter::InterfaceIp);
    let same_interfaces = info(Some(b"eth0"), v4(2, 2, 2, 2, 5), b"wan");
    let same_ip = info(Some(b"eth0"), v4(1, 1, 1, 1, 6), b"lan");
    assert!(c.link_filter(&new, &vec![same_interfaces]));
    assert!(!c.link_filter(&new, &vec![same_ip]));

    c.set_link_filter(LinkFilter::NoFilter);
    let same = info(Some(b"eth0"), v4(1, 1, 1, 1, 5), b"wan");
    assert!(c.link_filter(&new, &vec![same]));

    c.set_link_filter(LinkFilter::InterfaceInterface);
    let foreign = LinkInfo { tag: None, remote_user_data: b"wan".to_vec() };
    assert!(c.link_filter(&new, &vec![foreign]));
    let foreign = LinkInfo { tag: None, remote_user_data: b"wan".to_vec() };
    let same = info(Some(b"eth0"), v4(1, 1, 1, 1, 5), b"wan");
    assert!(c.link_filter(&foreign, &vec![same]));
}

#[test]
fn acceptors() {
    let a = UdpAcceptor::new(v4(0, 0, 0, 0, 5802));
    assert_eq!(a.binds.len(), 1);
    assert_eq!(a.binds[0].addr, v4(0, 0, 0, 0, 5802));
    assert!(a.binds[0].interface.is_none());
    assert_eq!(a.name(), "udp");
    assert_eq!(a.text(&vec!["0.0.0.0:5802".to_string()]), "0.0.0.0:5802");

    let interfaces = vec![
        NetworkInterface {
            index: 0,
            name: b"lo".to_vec(),
            addr: vec![IpAddr::V4(Ipv4Addr::new(127, 0, 0, 1)), IpAddr::V6(Ipv6Addr { bits: 0 })],
        },
        NetworkInterface { index: 0, name: b"eth0".to_vec(), addr: vec![IpAddr::V6(Ipv6Addr { bits: 5 })] },
    ];
    let a = UdpAcceptor::all_interfaces(&interfaces, 7).unwrap();
    assert_eq!(a.binds.len(), 2);
    assert_eq!(a.binds[0].addr, v4(127, 0, 0, 1, 7));
    assert_eq!(a.binds[0].interface, Some(b"lo".to_vec()));
    assert_eq!(a.binds[1].addr, v6(5, 7));
    let tag = a.binds[1].accepted_tag(v6(6, 8));
    assert_eq!(tag, LinkTag::new(Some(&b"eth0"[..]), v6(6, 8), Direction::Incoming));
    assert!(matches!(
        UdpAcceptor::all_interfaces(&Vec::new(), 7),
        Err(TransportError::NoLocalAddress)
    ));
    let bind = UdpBind { addr: v4(1, 1, 1, 1, 1), interface: None };
    assert_eq!(bind.accepted_tag(v6(6, 8)), LinkTag::new(None, v6(6, 8), Direction::Incoming));
}
