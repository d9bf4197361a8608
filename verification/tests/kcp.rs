use aggligator_transport::addr::{IpAddr, Ipv4Addr, SocketAddr};
use aggligator_transport::error::TransportError;
use aggligator_transport::fec::config::FecConfig;
use aggligator_transport::kcp::{KcpAcceptor, KcpConnect, KcpConnector, KcpLinkTag, KcpListen};
use aggligator_transport::link::{Direction, LinkFilter, LinkInfo};
use aggligator_transport::net::{IpVersion, NetworkInterface};
use aggligator_transport::phantun::config::PhantunConfig;
use kcp_tokio::KcpConfig;

fn ip(n: u8) -> IpAddr {
    IpAddr::V4(Ipv4Addr::new(10, 0, 0, n))
}

fn connector() -> KcpConnector {
    let resolved = vec![SocketAddr::new(ip(1), 5801)];
    KcpConnector::new(vec!["server".to_string()], 5801, KcpConfig::new(), &resolved, true).unwrap()
}

#[test]
fn kcp_connector_defaults_and_errors() {
    let c = connector();
    assert_eq!(c.hosts, vec!["server:5801".to_string()]);
    assert_eq!(c.ip_version, IpVersion::Both);
    assert_eq!(c.resolve_interval, 10_000_000_000);
    assert_eq!(c.link_filter, LinkFilter::InterfaceInterface);
    assert!(c.multi_interface);
    assert!(c.fec_config.is_none() && c.phantun_multi_stack.is_none());
    assert_eq!(c.name(), "kcp");
    assert_eq!(c.text(), "server:5801");
    assert!(matches!(
        KcpConnector::new(Vec::new(), 1, KcpConfig::new(), &Vec::new(), true),
        Err(TransportError::NoHosts)
    ));
    assert!(matches!(
        KcpConnector::new(vec!["h".to_string()], 1, KcpConfig::new(), &Vec::new(), true),
        Err(TransportError::Unresolved)
    ));
    let resolved = vec![SocketAddr::new(ip(1), 5801)];
    let v6 = KcpConnector::new(vec!["[::1]".to_string()], 5801, KcpConfig::new(), &resolved, false).unwrap();
    assert_eq!(v6.text(), "[::1]:5801");
    assert!(!v6.multi_interface);
}

#[test]
fn connection_plans() {
    let interfaces = Some(vec![NetworkInterface { index: 0, name: b"eth0".to_vec(), addr: vec![ip(9)] }]);
    let remote = SocketAddr::new(ip(1), 5801);
    let tag = KcpLinkTag::new(Some(&b"eth0"[..]), remote, Direction::Outgoing);
    let mut c = connector();
    match c.connect(&tag, &interfaces) {
        Ok(KcpConnect::Udp { bind_addr, fec }) => {
            assert_eq!(bind_addr, SocketAddr::new(ip(9), 0));
            assert!(fec.is_none());
        }
        _ => panic!("expected UDP"),
    }
    c.set_fec(FecConfig::new(4, 2));
    match c.connect(&tag, &interfaces) {
        Ok(KcpConnect::Udp { fec, .. }) => assert_eq!(fec, Some(FecConfig::new(4, 2))),
        _ => panic!("expected UDP"),
    }
    c.set_phantun(PhantunConfig::client_default());
    match c.connect(&tag, &interfaces) {
        Ok(KcpConnect::Phantun { fec }) => assert_eq!(fec, Some(FecConfig::new(4, 2))),
        _ => panic!("expected fake TCP"),
    }
    // A missing address is an error in any case.
    match c.connect(&tag, &None) {
        Err(TransportError::NoInterfaceAddress(name)) => assert_eq!(name, b"eth0".to_vec()),
        _ => panic!("expected an error"),
    }
}

#[test]
fn tags_and_filter() {
    let mut c = connector();
    c.set_ip_version(IpVersion::IPv4);
    c.set_resolve_interval(1);
    c.set_link_filter(LinkFilter::InterfaceIp);
    c.set_kcp_config(KcpConfig::new().fast_mode());
    let interfaces = vec![
        NetworkInterface { index: 0, name: b"eth0".to_vec(), addr: vec![ip(9)] },
        NetworkInterface { index: 0, name: b"eth1".to_vec(), addr: vec![ip(8)] },
    ];
    let remote = SocketAddr::new(ip(1), 5801);
    let tags = c.link_tags(&interfaces, &vec![remote]);
    assert_eq!(tags.len(), 2);
    assert!(tags.contains(&KcpLinkTag::new(Some(&b"eth0"[..]), remote, Direction::Outgoing)));
    assert!(tags.contains(&KcpLinkTag::new(Some(&b"eth1"[..]), remote, Direction::Outgoing)));
    c.set_multi_interface(false);
    assert_eq!(
        c.link_tags(&interfaces, &vec![remote]),
        vec![KcpLinkTag::new(None, remote, Direction::Outgoing)]
    );
    let info = |port| LinkInfo {
        tag: Some(KcpLinkTag::new(None, SocketAddr::new(ip(1), port), Direction::Outgoing)),
        remote_user_data: Vec::new(),
    };
    assert!(!c.link_filter(&info(1), &vec![info(2)]));
    assert!(c.link_filter(&info(1), &Vec::new()));
}

#[test]
fn listen_plans() {
    let bind = SocketAddr::new(ip(0), 5801);
    let mut a = KcpAcceptor::new(bind, KcpConfig::new());
    assert_eq!(a.name(), "kcp");
    assert!(matches!(a.listen(), KcpListen::Udp { bind_addr, fec: None } if bind_addr == bind));
    a.set_fec(FecConfig::default());
    assert!(matches!(a.listen(), KcpListen::Udp { fec: Some(_), .. }));
    a.set_phantun(PhantunConfig::server_default());
    match a.listen() {
        KcpListen::Phantun { port, fec } => {
            assert_eq!(port, 5801);
            assert_eq!(fec, Some(FecConfig::default()));
        }
        KcpListen::Udp { .. } => panic!("expected fake TCP"),
    }
    let remote = SocketAddr::new(ip(3), 9);
    assert_eq!(a.accepted_tag(remote), KcpLinkTag::new(None, remote, Direction::Incoming));
}
