use aggligator_transport::addr::{IpAddr, Ipv4Addr, Ipv6Addr, SocketAddr};
use aggligator_transport::error::TransportError;
use aggligator_transport::phantun::checksum::{add_to_sum, complement};
use aggligator_transport::phantun::config::PhantunConfig;
use aggligator_transport::phantun::multi::{GetOrCreate, PhantunMultiStack};
use aggligator_transport::phantun::packet::{build_tcp_packet, parse_ip_packet, ACK, RST, SYN};
use aggligator_transport::phantun::socket::{
    FtcpSocket, FtcpState, Handshake, HandshakeAction, HandshakeReply, RecvStep,
};
use aggligator_transport::phantun::stack::{AddrTuple, Connect, FtcpStack, Route};
use aggligator_transport::phantun::transport::{
    PhantunClientStack, PhantunClientTransport, PhantunServerTransport,
};
use pnet::packet::ip::IpNextHeaderProtocols;
use pnet::packet::ipv4::{checksum, Ipv4Packet};
use pnet::packet::ipv6::Ipv6Packet;
use pnet::packet::tcp::{ipv4_checksum, ipv6_checksum, MutableTcpPacket, TcpOption, TcpPacket};
use pnet::packet::Packet;

fn v4(n: u8, port: u16) -> SocketAddr {
    SocketAddr::new(IpAddr::V4(Ipv4Addr::new(192, 168, 200, n)), port)
}

fn v6(bits: u128, port: u16) -> SocketAddr {
    SocketAddr::new(IpAddr::V6(Ipv6Addr { bits }), port)
}

#[test]
fn checksum_of_long_inputs() {
    let mut bytes = Vec::new();
    for i in 0..1481u32 {
        bytes.push((i * 37 % 251) as u8);
    }
    for len in [0usize, 1, 2, 61, 62, 63, 64, 124, 125, 1000, 1481] {
        let mut sum = 0u64;
        for chunk in bytes[..len].chunks(2) {
            sum += (chunk[0] as u64) << 8 | *chunk.get(1).unwrap_or(&0) as u64;
        }
        while sum > 0xffff {
            sum = (sum >> 16) + (sum & 0xffff);
        }
        assert_eq!(add_to_sum(0, &bytes[..len]) as u64, sum);
        assert_eq!(complement(add_to_sum(0, &bytes[..len])), !(sum as u16));
    }
    assert_eq!(add_to_sum(0, &[0xff; 64]), 0xffff);
    assert_eq!(add_to_sum(0xffff, &[0, 1]), 1);
}

#[test]
fn ipv4_packets_are_what_pnet_reads() {
    let payload: Vec<u8> = (0..201u8).collect();
    for flags in [SYN, SYN | ACK, ACK, RST, RST | ACK] {
        for len in [0usize, 1, 77, 200, 201] {
            let packet = build_tcp_packet(v4(1, 40000), v4(2, 80), 0x0102_0304, 0xfffe_fdfc, flags, &payload[..len]);
            let ip = Ipv4Packet::new(&packet).unwrap();
            assert_eq!(ip.get_version(), 4);
            assert_eq!(ip.get_header_length(), 5);
            assert_eq!(ip.get_total_length() as usize, packet.len());
            assert_eq!(ip.get_ttl(), 64);
            assert_eq!(ip.get_flags(), 2);
            assert_eq!(ip.get_next_level_protocol(), IpNextHeaderProtocols::Tcp);
            assert_eq!(ip.get_checksum(), checksum(&ip));
            assert_eq!(ip.get_source().octets(), [192, 168, 200, 1]);
            assert_eq!(ip.get_destination().octets(), [192, 168, 200, 2]);
            let tcp = TcpPacket::new(&packet[20..]).unwrap();
            assert_eq!(tcp.get_source(), 40000);
            assert_eq!(tcp.get_destination(), 80);
            assert_eq!(tcp.get_sequence(), 0x0102_0304);
            assert_eq!(tcp.get_acknowledgement(), 0xfffe_fdfc);
            assert_eq!(tcp.get_flags(), flags);
            assert_eq!(tcp.get_window(), 0xffff);
            assert_eq!(tcp.get_checksum(), ipv4_checksum(&tcp, &ip.get_source(), &ip.get_destination()));
            assert_eq!(tcp.payload(), &payload[..len]);
            let options: &[u8] = if flags & SYN != 0 { &[1, 3, 3, 14] } else { &[] };
            assert_eq!(tcp.get_options_raw(), options);
        }
    }
}

#[test]
fn segments_are_what_pnet_writes() {
    for (flags, size) in [(SYN, 27usize), (SYN | ACK, 24), (ACK, 23), (RST | ACK, 20)] {
        let options = if flags & SYN != 0 { 4 } else { 0 };
        let payload = &b"abcdefg"[..size - 20 - options];
        let mut buf = vec![0u8; size];
        let mut tcp = MutableTcpPacket::new(&mut buf).unwrap();
        tcp.set_window(0xffff);
        tcp.set_source(40000);
        tcp.set_destination(80);
        tcp.set_sequence(5);
        tcp.set_acknowledgement(6);
        tcp.set_flags(flags);
        tcp.set_data_offset(5 + options as u8 / 4);
        if options > 0 {
            tcp.set_options(&[TcpOption::nop(), TcpOption::wscale(14)]);
        }
        tcp.set_payload(payload);
        let (a, b) = ([192, 168, 200, 1].into(), [192, 168, 200, 2].into());
        let sum = ipv4_checksum(&tcp.to_immutable(), &a, &b);
        tcp.set_checksum(sum);
        let packet = build_tcp_packet(v4(1, 40000), v4(2, 80), 5, 6, flags, payload);
        assert_eq!(packet[20..], buf[..]);
    }
}

#[test]
fn ipv6_packets_are_what_pnet_reads() {
    let src = 0x2001_0db8_0000_0000_0000_0000_0000_0001;
    let dst = 0x2001_0db8_0000_0000_0000_0000_0000_0002;
    for flags in [SYN, ACK] {
        let packet = build_tcp_packet(v6(src, 5), v6(dst, 6), 7, 8, flags, b"some payload of odd size!");
        let ip = Ipv6Packet::new(&packet).unwrap();
        assert_eq!(ip.get_version(), 6);
        assert_eq!(ip.get_payload_length() as usize, packet.len() - 40);
        assert_eq!(ip.get_next_header(), IpNextHeaderProtocols::Tcp);
        assert_eq!(ip.get_hop_limit(), 64);
        assert_eq!(u128::from(ip.get_source()), src);
        assert_eq!(u128::from(ip.get_destination()), dst);
        let tcp = TcpPacket::new(&packet[40..]).unwrap();
        assert_eq!(tcp.get_checksum(), ipv6_checksum(&tcp, &ip.get_source(), &ip.get_destination()));
        assert_eq!(tcp.payload(), b"some payload of odd size!");
    }
}

#[test]
fn packets_are_read_as_built() {
    for (a, b) in [(v4(1, 40000), v4(2, 80)), (v6(77, 1), v6(u128::MAX, 65535))] {
        for flags in [SYN, ACK] {
            let packet = build_tcp_packet(a, b, u32::MAX, 5, flags, b"payload");
            let p = parse_ip_packet(&packet).unwrap();
            assert_eq!(SocketAddr::new(p.src, p.source), a);
            assert_eq!(SocketAddr::new(p.dst, p.destination), b);
            assert_eq!((p.seq, p.ack, p.flags), (u32::MAX, 5, flags));
            assert_eq!(p.payload, b"payload".to_vec());
        }
    }
}

#[test]
fn parsing_agrees_with_pnet_on_odd_packets() {
    let good = build_tcp_packet(v4(1, 40000), v4(2, 80), 1, 2, ACK, b"payload");
    assert!(parse_ip_packet(&[]).is_none());
    assert!(parse_ip_packet(&good[..19]).is_none());
    assert!(parse_ip_packet(&good[..39]).is_none());
    assert!(parse_ip_packet(&[0x50; 60]).is_none());
    let mut udp = good.clone();
    udp[9] = 17;
    assert!(parse_ip_packet(&udp).is_none());
    let mut short_header = good.clone();
    short_header[0] = 0x44;
    assert!(parse_ip_packet(&short_header).is_none());
    let mut long_header = good.clone();
    long_header[0] = 0x4f;
    assert!(parse_ip_packet(&long_header).is_none());
    // Any data offset, also ones that are too small or point behind the end.
    for offset in 0..16u8 {
        let mut odd = good.clone();
        odd[32] = offset << 4;
        let tcp = TcpPacket::new(&odd[20..]).unwrap();
        assert_eq!(parse_ip_packet(&odd).unwrap().payload, tcp.payload().to_vec());
    }
    // IP options are skipped.
    let mut options = good.clone();
    options[0] = 0x46;
    for _ in 0..4 {
        options.insert(20, 1);
    }
    assert_eq!(parse_ip_packet(&options).unwrap().payload, b"payload".to_vec());
}

fn send_of(action: HandshakeAction) -> Vec<u8> {
    match action {
        HandshakeAction::Send(packet) => packet,
        _ => panic!("expected a packet"),
    }
}

#[test]
fn handshake_and_datagrams_between_stacks() {
    let server_addr = v4(1, 80);
    let mut client = FtcpStack::new(Ipv4Addr::new(192, 168, 200, 2), None);
    let mut server = FtcpStack::new(Ipv4Addr::new(192, 168, 200, 1), None);
    server.listen(80);

    let mut hc = match client.connect_from(40000, server_addr, 1) {
        Connect::Start(h) => h,
        _ => panic!("expected a handshake"),
    };
    assert_eq!(hc.socket.local_addr, v4(2, 40000));
    let syn = send_of(hc.next());
    let mut hs = match server.route(&syn, 2, true) {
        Route::Accept(h) => h,
        _ => panic!("expected a connection"),
    };
    let syn_ack = send_of(hs.next());
    assert!(matches!(client.route(&syn_ack, 9, true), Route::Deliver(1)));
    assert!(matches!(client.route(&syn_ack, 9, true), Route::Cached(1)));
    assert!(matches!(hc.next(), HandshakeAction::Wait));
    let ack = match hc.on_reply(Some(&syn_ack)) {
        HandshakeReply::Established(Some(ack)) => ack,
        _ => panic!("expected an established connection"),
    };
    assert!(matches!(server.route(&ack, 9, true), Route::Deliver(2)));
    assert!(matches!(hs.next(), HandshakeAction::Wait));
    assert!(matches!(hs.on_reply(Some(&ack)), HandshakeReply::Established(None)));
    assert_eq!((hc.socket.seq, hc.socket.ack), (1, 1));
    assert_eq!((hs.socket.seq, hs.socket.ack), (1, 1));

    let packet = hc.socket.send(b"hello").unwrap();
    assert_eq!(hc.socket.seq, 6);
    match hs.socket.recv(&packet, 100) {
        RecvStep::Deliver(None, data) => assert_eq!(data, b"hello".to_vec()),
        _ => panic!("expected a datagram"),
    }
    assert_eq!(hs.socket.ack, 6);
    let packet = hs.socket.send(b"a long answer").unwrap();
    match hc.socket.recv(&packet, 6) {
        RecvStep::Deliver(None, data) => assert_eq!(data, b"a long".to_vec()),
        _ => panic!("expected a datagram"),
    }
    // An empty datagram looks like a bare acknowledgement.
    let packet = hc.socket.send(b"").unwrap();
    assert!(matches!(hs.socket.recv(&packet, 100), RecvStep::Skip(None)));

    // A reset ends the connection.
    let rst = hc.socket.rst_packet();
    assert!(matches!(hs.socket.recv(&rst, 100), RecvStep::Closed));
    let t = AddrTuple { local_addr: hs.socket.local_addr, remote_addr: hs.socket.remote_addr };
    server.remove(t);
    assert!(matches!(server.route(&rst, 9, true), Route::Ignore));
    assert!(matches!(hs.socket.recv(b"junk", 100), RecvStep::Closed));
}

#[test]
fn handshakes_give_up() {
    let mut h = Handshake::connect(v4(2, 40000), v4(1, 80));
    for _ in 0..7 {
        assert!(matches!(h.next(), HandshakeAction::Send(_)));
        assert!(matches!(h.next(), HandshakeAction::Wait));
        assert!(matches!(h.on_reply(None), HandshakeReply::Pending));
    }
    assert!(matches!(h.next(), HandshakeAction::GiveUp));

    let mut h = Handshake::accept(v4(1, 80), v4(2, 40000));
    assert!(matches!(h.next(), HandshakeAction::Send(_)));
    for _ in 0..5 {
        assert!(matches!(h.next(), HandshakeAction::Wait));
        assert!(matches!(h.on_reply(Some(b"junk")), HandshakeReply::Pending));
    }
    assert!(matches!(h.next(), HandshakeAction::GiveUp));
}

#[test]
fn handshakes_survive_lost_openings() {
    let (server, client) = (v4(1, 80), v4(2, 40000));
    let mut h = Handshake::connect(client, server);
    let first = send_of(h.next());
    for _ in 0..6 {
        assert!(matches!(h.next(), HandshakeAction::Wait));
        assert!(matches!(h.on_reply(Some(b"junk")), HandshakeReply::Pending));
        assert!(matches!(h.next(), HandshakeAction::Wait));
        assert!(matches!(h.on_reply(None), HandshakeReply::Pending));
        assert_eq!(send_of(h.next()), first);
    }
    assert!(matches!(h.next(), HandshakeAction::Wait));
    let syn_ack = build_tcp_packet(server, client, 0, 1, SYN | ACK, b"");
    match h.on_reply(Some(&syn_ack)) {
        HandshakeReply::Established(Some(ack)) => {
            assert_eq!(ack, build_tcp_packet(client, server, 1, 1, ACK, b""))
        }
        _ => panic!("expected an established connection"),
    }
}

#[test]
fn handshakes_check_the_reply() {
    let (server, client) = (v4(1, 80), v4(2, 40000));
    let mut h = Handshake::connect(client, server);
    let _ = h.next();
    let wrong_ack = build_tcp_packet(server, client, 0, 2, SYN | ACK, b"");
    assert!(matches!(h.on_reply(Some(&wrong_ack)), HandshakeReply::Pending));
    let wrong_flags = build_tcp_packet(server, client, 0, 1, ACK, b"");
    assert!(matches!(h.on_reply(Some(&wrong_flags)), HandshakeReply::Pending));
    let reset = build_tcp_packet(server, client, 0, 1, RST | ACK, b"");
    assert!(matches!(h.on_reply(Some(&reset)), HandshakeReply::Refused));
    // The largest sequence number is followed by zero.
    let wrapping = build_tcp_packet(server, client, u32::MAX, 1, SYN | ACK, b"");
    assert!(matches!(h.on_reply(Some(&wrapping)), HandshakeReply::Established(Some(_))));
    assert_eq!(h.socket.ack, 0);
}

#[test]
fn much_unacknowledged_data_is_acknowledged() {
    let mut s = FtcpSocket::new(v4(1, 80), v4(2, 40000), Some(1), FtcpState::Established);
    let far = build_tcp_packet(v4(2, 40000), v4(1, 80), 1 + 0x800_0000, 1, ACK, b"");
    assert!(matches!(s.recv(&far, 10), RecvStep::Skip(None)));
    let farther = build_tcp_packet(v4(2, 40000), v4(1, 80), 1 + 0x800_0000, 1, ACK, b"x");
    match s.recv(&farther, 10) {
        RecvStep::Deliver(Some(reply), data) => {
            assert_eq!(data, b"x".to_vec());
            let p = parse_ip_packet(&reply).unwrap();
            assert_eq!((p.flags, p.ack), (ACK, 2 + 0x800_0000));
        }
        _ => panic!("expected an acknowledgement"),
    }
    assert_eq!(s.last_ack, 2 + 0x800_0000);
}

#[test]
fn sockets_send_only_when_established() {
    let mut s = FtcpSocket::new(v4(1, 80), v4(2, 40000), None, FtcpState::Idle);
    assert!(s.send(b"x").is_none());
    assert!(matches!(s.recv(b"x", 1), RecvStep::Closed));
    s.state = FtcpState::Established;
    s.seq = u32::MAX;
    assert!(s.send(b"xy").is_some());
    assert_eq!(s.seq, 1);
}

#[test]
fn stray_packets_are_reset() {
    let mut stack = FtcpStack::new(Ipv4Addr::new(192, 168, 200, 1), None);
    stack.listen(80);
    let reply = |stack: &mut FtcpStack, packet: &[u8]| match stack.route(packet, 1, true) {
        Route::Reply(reply) => parse_ip_packet(&reply).unwrap(),
        _ => panic!("expected a reply"),
    };
    // Data for no connection.
    let stray = build_tcp_packet(v4(2, 40000), v4(1, 80), 10, 20, ACK, b"abc");
    let p = reply(&mut stack, &stray);
    assert_eq!((p.flags, p.seq, p.ack), (RST | ACK, 20, 13));
    // A request with another sequence number than zero.
    let syn = build_tcp_packet(v4(2, 40000), v4(1, 80), u32::MAX, 0, SYN, b"");
    let p = reply(&mut stack, &syn);
    assert_eq!((p.flags, p.seq, p.ack), (RST | ACK, 0, 0));
    // A request to a port on which nobody listens.
    let syn = build_tcp_packet(v4(2, 40000), v4(1, 81), 0, 7, SYN, b"");
    let p = reply(&mut stack, &syn);
    assert_eq!((p.flags, p.seq, p.ack), (RST | ACK, 7, 0));
    assert!(matches!(stack.route(b"junk", 1, true), Route::Ignore));
}

#[test]
fn ports_are_taken_in_turn() {
    let mut stack = FtcpStack::new(Ipv4Addr::new(192, 168, 200, 2), Some(Ipv6Addr { bits: 9 }));
    let port = |c: Connect| match c {
        Connect::Start(h) => h.socket.local_addr.port(),
        _ => panic!("expected a port"),
    };
    assert_eq!(port(stack.connect_from(60998, v4(1, 80), 1)), 60998);
    assert_eq!(port(stack.connect_from(60998, v4(1, 80), 2)), 60999);
    assert!(matches!(stack.connect_from(60998, v4(1, 80), 3), Connect::Exhausted));
    assert_eq!(port(stack.connect_from(60998, v4(1, 81), 3)), 60998);
    match stack.connect_from(60998, v6(1, 80), 4) {
        Connect::Start(h) => assert_eq!(h.socket.local_addr, v6(9, 60998)),
        _ => panic!("expected a port"),
    }
    assert_eq!(port(stack.connect_with(Some(50000), v4(1, 80), 5)), 50000);
    assert!(matches!(stack.connect_with(Some(60998), v4(1, 80), 6), Connect::Exhausted));
    assert!(matches!(stack.connect_with(None, v4(1, 80), 6), Connect::NoRandomness));
    assert_eq!(stack.tuples.len(), 5);
    for i in 0..50 {
        let p = port(stack.connect(v4(3, 1), 100 + i));
        assert!((32768..=60999).contains(&p));
    }
}

#[test]
fn client_and_server_transports() {
    let mut stack = PhantunClientStack::new(&PhantunConfig::client_default());
    assert_eq!(stack.local_addr, v4(2, 0));
    let server_addr = SocketAddr::new(IpAddr::V4(Ipv4Addr::new(192, 168, 201, 1)), 80);
    let mut hc = match PhantunClientTransport::connect(&mut stack, server_addr, 1) {
        Connect::Start(h) => h,
        _ => panic!("expected a handshake"),
    };
    let mut server = PhantunServerTransport::listen(&PhantunConfig::server_default(), 80);
    assert_eq!(server.local_addr(), SocketAddr::new(IpAddr::V4(Ipv4Addr::new(192, 168, 201, 2)), 80));

    let syn = send_of(hc.next());
    let mut hs = match server.stack.route(&syn, 1, true) {
        Route::Accept(h) => h,
        _ => panic!("expected a connection"),
    };
    let syn_ack = send_of(hs.next());
    let ack = match hc.on_reply(Some(&syn_ack)) {
        HandshakeReply::Established(Some(ack)) => ack,
        _ => panic!("expected an established connection"),
    };
    assert!(matches!(hs.on_reply(Some(&ack)), HandshakeReply::Established(None)));
    assert!(matches!(
        PhantunClientTransport::connected(&stack, server_addr, None),
        Err(TransportError::PhantunRefused(a)) if a == server_addr
    ));
    let mut client = PhantunClientTransport::connected(&stack, server_addr, Some(hc.socket)).unwrap();
    assert_eq!(client.local_addr(), v4(2, 0));
    let client_addr = hs.socket.remote_addr;
    assert!(matches!(
        server.send_to(b"x", client_addr),
        Err(TransportError::PhantunNotConnected(a)) if a == client_addr
    ));
    server.accept(hs.socket);

    let packet = client.send_to(b"ping").unwrap();
    match server.recv(client_addr, &packet) {
        RecvStep::Deliver(_, data) => assert_eq!(data, b"ping".to_vec()),
        _ => panic!("expected a datagram"),
    }
    let packet = server.send_to(b"pong", client_addr).unwrap();
    match client.recv_from(&packet, 100) {
        Ok((None, Some(data))) => assert_eq!(data, b"pong".to_vec()),
        _ => panic!("expected a datagram"),
    }
    let rst = client.socket.rst_packet();
    assert!(matches!(server.recv(client_addr, &rst), RecvStep::Closed));
    assert_eq!(server.sockets.len(), 0);
    assert!(matches!(server.recv(client_addr, &packet), RecvStep::Closed));
    assert!(matches!(client.recv_from(b"junk", 1), Err(TransportError::PhantunRecvFailed)));
    client.socket.state = FtcpState::Idle;
    assert!(matches!(client.send_to(b"x"), Err(TransportError::PhantunSendFailed)));
}

#[test]
fn configurations_by_index() {
    let c = PhantunConfig::client_default();
    assert_eq!((c.tun_local, c.tun_peer), (Ipv4Addr::new(192, 168, 200, 1), Ipv4Addr::new(192, 168, 200, 2)));
    let s = PhantunConfig::server_default();
    assert_eq!((s.tun_local, s.tun_peer), (Ipv4Addr::new(192, 168, 201, 1), Ipv4Addr::new(192, 168, 201, 2)));
    assert!(c.tun_name.is_empty() && c.tun_local6.is_none() && c.tun_peer6.is_none());

    let mut m = PhantunMultiStack::new(PhantunConfig {
        tun_name: "tun".to_string(),
        tun_local: Ipv4Addr::new(192, 168, 200, 1),
        tun_peer: Ipv4Addr::new(255, 255, 255, 254),
        tun_local6: Some(Ipv6Addr { bits: 0x1_fffe }),
        tun_peer6: None,
    });
    let config = m.config_for_index(0);
    assert_eq!(config.tun_name, "tun");
    let config = m.config_for_index(255);
    assert_eq!(config.tun_name, "tun255");
    assert_eq!(config.tun_local, Ipv4Addr::new(192, 168, 203, 253));
    assert_eq!(config.tun_peer, Ipv4Addr::new(0, 0, 3, 250));
    assert_eq!(config.tun_local6, Some(Ipv6Addr { bits: 0x1_03fa }));
    assert_eq!(config.tun_peer6, None);
    let unnamed = PhantunMultiStack::new(PhantunConfig::client_default());
    assert_eq!(unnamed.config_for_index(1).tun_name, "");
    assert_eq!(unnamed.config_for_index(1).tun_peer, Ipv4Addr::new(192, 168, 200, 6));

    let eth0 = Some(b"eth0".to_vec());
    match m.get_or_create(&eth0) {
        GetOrCreate::Create(config) => assert_eq!(config.tun_name, "tun"),
        GetOrCreate::Existing(_) => panic!("expected a new stack"),
    }
    m.register(&eth0, 7);
    assert!(matches!(m.get_or_create(&eth0), GetOrCreate::Existing(7)));
    match m.get_or_create(&None) {
        GetOrCreate::Create(config) => assert_eq!(config.tun_name, "tun1"),
        GetOrCreate::Existing(_) => panic!("expected a new stack"),
    }
    // One that could not be created has not used up its index.
    match m.get_or_create(&None) {
        GetOrCreate::Create(config) => assert_eq!(config.tun_name, "tun1"),
        GetOrCreate::Existing(_) => panic!("expected a new stack"),
    }
    m.register(&None, 8);
    assert!(matches!(m.get_or_create(&None), GetOrCreate::Existing(8)));
    match m.get_or_create(&Some(b"eth1".to_vec())) {
        GetOrCreate::Create(config) => assert_eq!(config.tun_name, "tun2"),
        GetOrCreate::Existing(_) => panic!("expected a new stack"),
    }
}
