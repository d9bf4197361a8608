//! Both ends of fake-TCP transports.

use crate::addr::{IpAddr, SocketAddr};
use crate::error::TransportError;
use crate::phantun::config::PhantunConfig;
use crate::phantun::packet::ACK;
use crate::phantun::socket::{
    law_datagram_roundtrip, FtcpSocket, FtcpState, Handshake, RecvStep, RecvView, Role,
};
use crate::phantun::stack::{AddrTuple, Connect, FtcpStack, StackState, FIRST_PORT, LAST_PORT};
use crate::vec_map::VecMap;
use crate::wire::optional_bytes;
use vstd::prelude::*;

verus! {

/// The largest datagram that a server hands over.
pub const SERVER_BUFFER_LEN: usize = 65536;

/// The fake-TCP stack of clients. Many connections share one, so that only one set of
/// routing rules is needed.
pub struct PhantunClientStack {
    /// The connections.
    pub stack: FtcpStack,
    /// The own endpoint, without a port.
    pub local_addr: SocketAddr,
}

impl PhantunClientStack {
    /// A stack for the TUN interface of a configuration.
    pub fn new(config: &PhantunConfig) -> (s: PhantunClientStack)
        ensures
            s.stack.wf(),
            s.stack.local_ip == config.tun_peer,
            s.stack.local_ip6 == config.tun_peer6,
            s.stack@ == (StackState {
                tuples: Map::empty(),
                listening: Set::empty(),
                cache: Map::empty(),
            }),
            s.local_addr == SocketAddr::spec_new(IpAddr::V4(config.tun_peer), 0),
    {
        PhantunClientStack {
            stack: FtcpStack::new(config.tun_peer, config.tun_peer6),
            local_addr: SocketAddr::new(IpAddr::V4(config.tun_peer), 0),
        }
    }
}

/// A fake-TCP connection to a server.
#[derive(Debug)]
pub struct PhantunClientTransport {
    /// The connection.
    pub socket: FtcpSocket,
    /// The own endpoint.
    pub local_addr: SocketAddr,
    /// The server.
    pub remote_addr: SocketAddr,
}

impl PhantunClientTransport {
    /// Begins to connect to a server. The handshake has to be carried out.
    pub fn connect(client_stack: &mut PhantunClientStack, remote_addr: SocketAddr, channel: u64) -> (r:
        Connect)
        requires
            old(client_stack).stack.wf(),
            remote_addr is V6 ==> old(client_stack).stack.local_ip6 is Some,
        ensures
            final(client_stack).stack.wf(),
            final(client_stack).local_addr == old(client_stack).local_addr,
            final(client_stack).stack.local_ip == old(client_stack).stack.local_ip,
            final(client_stack).stack.local_ip6 == old(client_stack).stack.local_ip6,
            match r {
                Connect::Start(h) => {
                    let t = AddrTuple {
                        local_addr: h.socket.local_addr,
                        remote_addr,
                    };
                    &&& h.wf()
                    &&& h == (Handshake {
                        socket: FtcpSocket::spec_new(
                            t.local_addr,
                            remote_addr,
                            None,
                            FtcpState::Idle,
                        ),
                        role: Role::Client,
                        attempts: 0,
                        strays: 0,
                    })
                    &&& t == old(client_stack).stack.outgoing(
                        remote_addr,
                        t.local_addr.spec_port(),
                    )
                    &&& FIRST_PORT <= t.local_addr.spec_port() <= LAST_PORT
                    &&& !old(client_stack).stack@.tuples.contains_key(t)
                    &&& final(client_stack).stack@ == (StackState {
                        tuples: old(client_stack).stack@.tuples.insert(t, channel),
                        ..old(client_stack).stack@
                    })
                },
                Connect::Exhausted => final(client_stack).stack@ == old(client_stack).stack@ && old(
                    client_stack,
                ).stack@.tuples.contains_key(
                    old(client_stack).stack.outgoing(remote_addr, LAST_PORT),
                ),
                Connect::NoRandomness => final(client_stack).stack@ == old(client_stack).stack@,
            },
    {
        client_stack.stack.connect(remote_addr, channel)
    }

    /// What came of a handshake: the transport over an established connection, or the error
    /// of one that was not.
    pub fn connected(
        client_stack: &PhantunClientStack,
        remote_addr: SocketAddr,
        socket: Option<FtcpSocket>,
    ) -> (r: Result<PhantunClientTransport, TransportError>)
        ensures
            match r {
                Ok(t) => socket == Some(t.socket) && t.local_addr == client_stack.local_addr
                    && t.remote_addr == remote_addr,
                Err(e) => socket is None && e == TransportError::PhantunRefused(remote_addr),
            },
    {
        match socket {
            Some(socket) => Ok(
                PhantunClientTransport { socket, local_addr: client_stack.local_addr, remote_addr },
            ),
            None => Err(TransportError::PhantunRefused(remote_addr)),
        }
    }

    /// Builds the packet that carries a datagram to the server.
    pub fn send_to(&mut self, buf: &[u8]) -> (r: Result<Vec<u8>, TransportError>)
        requires
            old(self).socket.wf(),
            buf@.len() + 64 <= usize::MAX,
        ensures
            final(self).local_addr == old(self).local_addr,
            final(self).remote_addr == old(self).remote_addr,
            match r {
                Ok(packet) => old(self).socket.state == FtcpState::Established && packet@ == old(
                    self,
                ).socket.packet(ACK, buf@) && final(self).socket == old(self).socket.after_send(
                    buf@,
                ),
                Err(e) => old(self).socket.state != FtcpState::Established && e
                    == TransportError::PhantunSendFailed && final(self).socket == old(self).socket,
            },
    {
        match self.socket.send(buf) {
            Some(packet) => Ok(packet),
            None => Err(TransportError::PhantunSendFailed),
        }
    }

    /// Takes a packet of the server. Returns the packet to send back, if any, and the datagram
    /// of at most `max` bytes, if there is one.
    pub fn recv_from(&mut self, raw: &[u8], max: usize) -> (r: Result<
        (Option<Vec<u8>>, Option<Vec<u8>>),
        TransportError,
    >)
        requires
            old(self).socket.wf(),
        ensures
            final(self).local_addr == old(self).local_addr,
            final(self).remote_addr == old(self).remote_addr,
            ({
                let (after, step) = old(self).socket.after_recv(raw@, max as nat);
                &&& final(self).socket == after
                &&& match r {
                    Ok((reply, None)) => step == RecvView::Skip(
                        optional_bytes(reply),
                    ),
                    Ok((reply, Some(data))) => step == RecvView::Deliver(
                        optional_bytes(reply),
                        data@,
                    ),
                    Err(e) => step is Closed && e == TransportError::PhantunRecvFailed,
                }
            }),
    {
        match self.socket.recv(raw, max) {
            RecvStep::Closed => Err(TransportError::PhantunRecvFailed),
            RecvStep::Skip(reply) => Ok((reply, None)),
            RecvStep::Deliver(reply, data) => Ok((reply, Some(data))),
        }
    }

    /// The own endpoint.
    pub fn local_addr(&self) -> (addr: SocketAddr)
        ensures
            addr == self.local_addr,
    {
        self.local_addr
    }
}

/// What comes of a packet of a client, and the established connections after it. One that has
/// ended is forgotten; without one there is nothing to receive.
pub open spec fn server_received(
    sockets: Map<SocketAddr, FtcpSocket>,
    addr: SocketAddr,
    raw: Seq<u8>,
) -> (Map<SocketAddr, FtcpSocket>, RecvView) {
    if sockets.contains_key(addr) {
        let (after, view) = sockets[addr].after_recv(raw, SERVER_BUFFER_LEN as nat);
        (
            if view is Closed {
                sockets.remove(addr)
            } else {
                sockets.insert(addr, after)
            },
            view,
        )
    } else {
        (sockets, RecvView::Closed)
    }
}

/// The packet that carries a datagram to a client, if there is an established connection to it,
/// and the connections after it.
pub open spec fn server_sent(
    sockets: Map<SocketAddr, FtcpSocket>,
    addr: SocketAddr,
    buf: Seq<u8>,
) -> (Map<SocketAddr, FtcpSocket>, Option<Seq<u8>>) {
    if sockets.contains_key(addr) && sockets[addr].state == FtcpState::Established {
        (
            sockets.insert(addr, sockets[addr].after_send(buf)),
            Some(sockets[addr].packet(ACK, buf)),
        )
    } else {
        (sockets, None)
    }
}

/// Fake-TCP connections to clients.
pub struct PhantunServerTransport {
    /// The own endpoint.
    pub local_addr: SocketAddr,
    /// All connections.
    pub stack: FtcpStack,
    /// The established ones, by client.
    pub sockets: VecMap<SocketAddr, FtcpSocket>,
}

impl PhantunServerTransport {
    /// The maps and the sockets in them are well-formed, and each socket is that of its
    /// client.
    pub open spec fn wf(&self) -> bool {
        &&& self.stack.wf()
        &&& self.sockets.wf()
        &&& forall|a: SocketAddr| #[trigger]
            self.sockets@.contains_key(a) ==> self.sockets@[a].wf() && self.sockets@[a].remote_addr
                == a
    }

    /// Accepts connections on a port, behind the TUN interface of a configuration.
    pub fn listen(config: &PhantunConfig, port: u16) -> (t: PhantunServerTransport)
        ensures
            t.wf(),
            t.local_addr == SocketAddr::spec_new(IpAddr::V4(config.tun_peer), port),
            t.stack.local_ip == config.tun_local,
            t.stack.local_ip6 == config.tun_local6,
            t.stack@ == (StackState {
                tuples: Map::empty(),
                listening: Set::empty().insert(port),
                cache: Map::empty(),
            }),
            t.sockets@ == Map::<SocketAddr, FtcpSocket>::empty(),
    {
        let mut stack = FtcpStack::new(config.tun_local, config.tun_local6);
        stack.listen(port);
        PhantunServerTransport {
            local_addr: SocketAddr::new(IpAddr::V4(config.tun_peer), port),
            stack,
            sockets: VecMap::new(),
        }
    }

    /// Takes an established connection. It replaces another one of the same client.
    pub fn accept(&mut self, socket: FtcpSocket)
        requires
            old(self).wf(),
            socket.wf(),
        ensures
            final(self).wf(),
            final(self).local_addr == old(self).local_addr,
            final(self).stack == old(self).stack,
            final(self).sockets@ == old(self).sockets@.insert(socket.remote_addr, socket),
    {
        self.sockets.insert(socket.remote_addr, socket);
    }

    /// Takes a packet of a client. A connection that has ended is forgotten.
    pub fn recv(&mut self, addr: SocketAddr, raw: &[u8]) -> (step: RecvStep)
        requires
            old(self).wf(),
        ensures
            final(self).wf(),
            final(self).local_addr == old(self).local_addr,
            final(self).stack == old(self).stack,
            if old(self).sockets@.contains_key(addr) {
                let (after, view) = old(self).sockets@[addr].after_recv(
                    raw@,
                    SERVER_BUFFER_LEN as nat,
                );
                &&& step@ == view
                &&& final(self).sockets@ == if view is Closed {
                    old(self).sockets@.remove(addr)
                } else {
                    old(self).sockets@.insert(addr, after)
                }
            } else {
                step@ is Closed && final(self).sockets@ == old(self).sockets@
            },
            (final(self).sockets@, step@) == server_received(old(self).sockets@, addr, raw@),
    {
        match self.sockets.remove(&addr) {
            None => {
                assert(self.sockets@ =~= old(self).sockets@);
                RecvStep::Closed
            },
            Some(mut socket) => {
                let step = socket.recv(raw, SERVER_BUFFER_LEN);
                if let RecvStep::Closed = step {
                } else {
                    self.sockets.insert(addr, socket);
                    assert(self.sockets@ =~= old(self).sockets@.insert(addr, socket));
                }
                step
            },
        }
    }

    /// Builds the packet that carries a datagram to a client.
    pub fn send_to(&mut self, buf: &[u8], addr: SocketAddr) -> (r: Result<
        Vec<u8>,
        TransportError,
    >)
        requires
            old(self).wf(),
            buf@.len() + 64 <= usize::MAX,
        ensures
            final(self).wf(),
            final(self).local_addr == old(self).local_addr,
            final(self).stack == old(self).stack,
            match r {
                Ok(packet) => old(self).sockets@.contains_key(addr) && old(
                    self,
                ).sockets@[addr].state == FtcpState::Established && packet@ == old(
                    self,
                ).sockets@[addr].packet(ACK, buf@) && final(self).sockets@ == old(
                    self,
                ).sockets@.insert(addr, old(self).sockets@[addr].after_send(buf@)),
                Err(e) => final(self).sockets@ == old(self).sockets@ && if old(
                    self,
                ).sockets@.contains_key(addr) {
                    old(self).sockets@[addr].state != FtcpState::Established && e
                        == TransportError::PhantunSendFailed
                } else {
                    e == TransportError::PhantunNotConnected(addr)
                },
            },
            final(self).sockets@ == server_sent(old(self).sockets@, addr, buf@).0,
            match r {
                Ok(packet) => server_sent(old(self).sockets@, addr, buf@).1 == Some(packet@),
                Err(_) => server_sent(old(self).sockets@, addr, buf@).1 is None,
            },
    {
        match self.sockets.remove(&addr) {
            None => {
                assert(self.sockets@ =~= old(self).sockets@);
                Err(TransportError::PhantunNotConnected(addr))
            },
            Some(mut socket) => {
                let r = socket.send(buf);
                self.sockets.insert(addr, socket);
                assert(self.sockets@ =~= old(self).sockets@.insert(addr, socket));
                match r {
                    Some(packet) => Ok(packet),
                    None => {
                        assert(self.sockets@ =~= old(self).sockets@);
                        Err(TransportError::PhantunSendFailed)
                    },
                }
            },
        }
    }

    /// The own endpoint.
    pub fn local_addr(&self) -> (addr: SocketAddr)
        ensures
            addr == self.local_addr,
    {
        self.local_addr
    }
}

/// A server hands over whole every datagram that fits into an IP packet.
pub proof fn law_servers_take_whole_datagrams(client: FtcpSocket, server: FtcpSocket, payload: Seq<u8>)
    requires
        client.wf(),
        server.wf(),
        client.state == FtcpState::Established,
        server.state == FtcpState::Established,
        0 < payload.len() <= 65535,
    ensures
        server.after_recv(client.packet(ACK, payload), SERVER_BUFFER_LEN as nat).1 matches
            RecvView::Deliver(_, data) && data == payload,
{
    law_datagram_roundtrip(client, server, payload, SERVER_BUFFER_LEN as nat);
}

/// A server and its clients understand each other. What it sends to a client with an established
/// connection comes out at that client as it was, and what such a client sends comes out at the
/// server; each then goes on where the other expects it. To others nothing is sent, and a packet
/// of one without a connection is dropped.
pub proof fn law_servers_and_clients_understand_each_other(
    sockets: Map<SocketAddr, FtcpSocket>,
    addr: SocketAddr,
    client: FtcpSocket,
    payload: Seq<u8>,
    max: nat,
)
    requires
        client.wf(),
        client.state == FtcpState::Established,
        sockets.contains_key(addr) ==> sockets[addr].wf(),
        0 < payload.len() <= 65535,
        payload.len() <= max,
    ensures
        ({
            let connected = sockets.contains_key(addr) && sockets[addr].state
                == FtcpState::Established;
            let (after_send, packet) = server_sent(sockets, addr, payload);
            let (after_recv, step) = server_received(sockets, addr, client.packet(ACK, payload));
            &&& packet is Some <==> connected
            &&& !connected ==> after_send == sockets && step is Closed
            &&& connected ==> {
                let (client_after, taken) = client.after_recv(packet->0, max);
                &&& taken matches RecvView::Deliver(_, data) && data == payload
                &&& after_send.contains_key(addr) && after_send[addr].seq == client_after.ack
                &&& step matches RecvView::Deliver(_, data) && data == payload
                &&& after_recv.contains_key(addr) && after_recv[addr].ack == client.after_send(
                    payload,
                ).seq
            }
        }),
{
    if sockets.contains_key(addr) && sockets[addr].state == FtcpState::Established {
        law_datagram_roundtrip(sockets[addr], client, payload, max);
        law_datagram_roundtrip(client, sockets[addr], payload, SERVER_BUFFER_LEN as nat);
    }
}

/// What a server does for one client concerns no other client, and a connection that has ended
/// is forgotten.
pub proof fn law_clients_do_not_mix(
    sockets: Map<SocketAddr, FtcpSocket>,
    addr: SocketAddr,
    other: SocketAddr,
    bytes: Seq<u8>,
)
    ensures
        ({
            let sent = server_sent(sockets, addr, bytes).0;
            let (received, step) = server_received(sockets, addr, bytes);
            &&& step is Closed ==> !received.contains_key(addr)
            &&& step !is Closed ==> received.contains_key(addr)
            &&& sent.contains_key(addr) <==> sockets.contains_key(addr)
            &&& other != addr ==> {
                &&& sent.contains_key(other) <==> sockets.contains_key(other)
                &&& received.contains_key(other) <==> sockets.contains_key(other)
                &&& sockets.contains_key(other) ==> sent[other] == sockets[other]
                    && received[other] == sockets[other]
            }
        }),
{
}

} // verus!
