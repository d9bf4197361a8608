//! The connections behind one TUN interface.

use crate::addr::{IpAddr, Ipv4Addr, Ipv6Addr, SocketAddr};
use crate::phantun::packet::{
    build_tcp_packet, law_packet_roundtrip, parse_ip_packet, parse_packet, same_family, tcp_packet,
    PacketView, TcpPacket, ACK, RST, SYN,
};
use crate::phantun::socket::{
    opening_flags, seq_after, seq_number, FtcpSocket, FtcpState, Handshake, RecvView,
    ReplyView, Role,
};
use crate::vec_map::{Key, VecMap};
use rand::rngs::{SmallRng, SysRng};
use rand::{RngExt, SeedableRng};
use vstd::prelude::*;

verus! {

/// The lowest port for outgoing connections.
pub const FIRST_PORT: u16 = 32768;

/// The highest port for outgoing connections.
pub const LAST_PORT: u16 = 60999;

/// The endpoints of a connection.
#[derive(Debug, Clone, Copy, PartialEq, Eq, Hash, Structural)]
pub struct AddrTuple {
    /// The own endpoint.
    pub local_addr: SocketAddr,
    /// The other endpoint.
    pub remote_addr: SocketAddr,
}

impl Key for AddrTuple {
    fn same(&self, other: &Self) -> (b: bool) {
        *self == *other
    }
}

impl Key for u16 {
    fn same(&self, other: &Self) -> (b: bool) {
        *self == *other
    }
}

/// What to do with a packet from the interface.
#[derive(Debug)]
pub enum Route {
    /// Drop it.
    Ignore,
    /// Hand it to the connection behind this channel. If that is gone, route it anew, past
    /// the cache.
    Cached(u64),
    /// Hand it to the connection behind this channel.
    Deliver(u64),
    /// Start the handshake of a new connection.
    Accept(Handshake),
    /// Send this packet back.
    Reply(Vec<u8>),
}

/// What to do with a packet from the interface.
pub enum RouteView {
    /// Drop it.
    Ignore,
    /// Hand it to the connection behind this channel. If that is gone, route it anew, past
    /// the cache.
    Cached(u64),
    /// Hand it to the connection behind this channel.
    Deliver(u64),
    /// Start the handshake of a new connection.
    Accept(Handshake),
    /// Send this packet back.
    Reply(Seq<u8>),
}

impl View for Route {
    type V = RouteView;

    open spec fn view(&self) -> RouteView {
        match *self {
            Route::Ignore => RouteView::Ignore,
            Route::Cached(channel) => RouteView::Cached(channel),
            Route::Deliver(channel) => RouteView::Deliver(channel),
            Route::Accept(handshake) => RouteView::Accept(handshake),
            Route::Reply(packet) => RouteView::Reply(packet@),
        }
    }
}

/// What a stack holds.
#[verifier::ext_equal]
pub struct StackState {
    /// The channel of each connection.
    pub tuples: Map<AddrTuple, u64>,
    /// The ports on which connections are accepted.
    pub listening: Set<u16>,
    /// The channels that have been used.
    pub cache: Map<AddrTuple, u64>,
}

/// The endpoints that a packet belongs to, seen from its receiver.
pub open spec fn tuple_of(p: PacketView) -> AddrTuple {
    AddrTuple {
        local_addr: SocketAddr::spec_new(p.dst, p.fields.destination),
        remote_addr: SocketAddr::spec_new(p.src, p.fields.source),
    }
}

/// The handshake of a connection that was asked for.
pub open spec fn accepted(t: AddrTuple) -> Handshake {
    Handshake {
        socket: FtcpSocket::spec_new(
            t.local_addr,
            t.remote_addr,
            Some(1),
            FtcpState::Idle,
        ),
        role: Role::Server,
        attempts: 0,
        strays: 0,
    }
}

/// The packet that answers `p` in place of a connection: its sender should end it.
pub open spec fn reset_for(p: PacketView, seq: u32, extra: int) -> Seq<u8> {
    tcp_packet(
        tuple_of(p).local_addr,
        tuple_of(p).remote_addr,
        seq,
        seq_number(p.fields.seq + p.payload.len() + extra),
        20,
        Seq::empty(),
    )
}

impl StackState {
    /// What to do with a packet that can be read, past the cache. `channel` is the one that a
    /// new connection gets.
    ///
    /// A packet of a known connection goes there. A request for a connection to a listening
    /// port is accepted if its sequence number is zero, and refused otherwise. Anything else
    /// is answered by a reset, unless it is one itself.
    pub open spec fn routed_past_cache(self, p: PacketView, channel: u64) -> (StackState, RouteView) {
        let t = tuple_of(p);
        if self.tuples.contains_key(t) {
            (
                StackState { cache: self.cache.insert(t, self.tuples[t]), ..self },
                RouteView::Deliver(self.tuples[t]),
            )
        } else if p.fields.flags == SYN && self.listening.contains(p.fields.destination) {
            if p.fields.seq == 0 {
                (
                    StackState { tuples: self.tuples.insert(t, channel), ..self },
                    RouteView::Accept(accepted(t)),
                )
            } else {
                (self, RouteView::Reply(reset_for(p, 0, 1)))
            }
        } else if p.fields.flags & RST == 0 {
            (self, RouteView::Reply(reset_for(p, p.fields.ack, 0)))
        } else {
            (self, RouteView::Ignore)
        }
    }

    /// What to do with a packet, and the stack after it. With `use_cache`, a connection that
    /// has been used is found at once.
    pub open spec fn routed(self, raw: Seq<u8>, channel: u64, use_cache: bool) -> (
        StackState,
        RouteView,
    ) {
        match parse_packet(raw) {
            None => (self, RouteView::Ignore),
            Some(p) => if use_cache && self.cache.contains_key(tuple_of(p)) {
                (self, RouteView::Cached(self.cache[tuple_of(p)]))
            } else {
                self.routed_past_cache(p, channel)
            },
        }
    }

    /// The stack after the end of a connection.
    pub open spec fn without(self, t: AddrTuple) -> StackState {
        StackState { tuples: self.tuples.remove(t), cache: self.cache.remove(t), ..self }
    }
}

/// What came of the search for a free port.
#[derive(Debug)]
pub enum Connect {
    /// Start this handshake.
    Start(Handshake),
    /// All ports are taken.
    Exhausted,
    /// The system has no random numbers.
    NoRandomness,
}

/// The connections behind one TUN interface. Each is known by a channel, through which its
/// packets are handed over.
pub struct FtcpStack {
    /// The channel of each connection.
    pub tuples: VecMap<AddrTuple, u64>,
    /// The ports on which connections are accepted.
    pub listening: VecMap<u16, ()>,
    /// The channels that have been used.
    pub cache: VecMap<AddrTuple, u64>,
    /// The address that outgoing IPv4 connections come from.
    pub local_ip: Ipv4Addr,
    /// The address that outgoing IPv6 connections come from.
    pub local_ip6: Option<Ipv6Addr>,
}

impl View for FtcpStack {
    type V = StackState;

    open spec fn view(&self) -> StackState {
        StackState {
            tuples: self.tuples@,
            listening: self.listening@.dom(),
            cache: self.cache@,
        }
    }
}

/// `SmallRng::try_from_rng` over `SysRng`, then `RngExt::random_range`: some port from `first`
/// to `last`, or none where the system has no random numbers. Which one it is depends on
/// chance.
#[verifier::external_body]
fn random_port(first: u16, last: u16) -> (r: Option<u16>)
    requires
        first <= last,
    ensures
        r is Some ==> first <= r->0 <= last,
{
    let mut rng = SmallRng::try_from_rng(&mut SysRng).ok()?;
    Some(rng.random_range(first..=last))
}

/// Reads the endpoints of a packet, seen from its receiver.
fn packet_tuple(p: &TcpPacket) -> (t: AddrTuple)
    ensures
        t == tuple_of(p@),
{
    AddrTuple {
        local_addr: SocketAddr::new(p.dst, p.destination),
        remote_addr: SocketAddr::new(p.src, p.source),
    }
}

/// Both addresses of a packet that could be read are of one IP version.
proof fn lemma_tuple_family(raw: Seq<u8>)
    requires
        parse_packet(raw) is Some,
    ensures
        same_family(tuple_of(parse_packet(raw)->0).local_addr, tuple_of(parse_packet(raw)->0).remote_addr),
{
}

impl FtcpStack {
    /// The maps are well-formed.
    pub open spec fn wf(&self) -> bool {
        &&& self.tuples.wf()
        &&& self.listening.wf()
        &&& self.cache.wf()
    }

    /// A stack without connections.
    pub fn new(local_ip: Ipv4Addr, local_ip6: Option<Ipv6Addr>) -> (s: FtcpStack)
        ensures
            s.wf(),
            s.local_ip == local_ip,
            s.local_ip6 == local_ip6,
            s@ == (StackState {
                tuples: Map::empty(),
                listening: Set::empty(),
                cache: Map::empty(),
            }),
    {
        let s = FtcpStack {
            tuples: VecMap::new(),
            listening: VecMap::new(),
            cache: VecMap::new(),
            local_ip,
            local_ip6,
        };
        assert(s@.listening =~= Set::empty());
        s
    }

    /// Accepts connections on a port.
    pub fn listen(&mut self, port: u16)
        requires
            old(self).wf(),
        ensures
            final(self).wf(),
            final(self).local_ip == old(self).local_ip,
            final(self).local_ip6 == old(self).local_ip6,
            final(self)@ == (StackState {
                listening: old(self)@.listening.insert(port),
                ..old(self)@
            }),
    {
        self.listening.insert(port, ());
        assert(self@.listening =~= old(self)@.listening.insert(port));
    }

    /// Decides what to do with a packet from the interface. `channel` is the one that a new
    /// connection gets.
    pub fn route(&mut self, raw: &[u8], channel: u64, use_cache: bool) -> (r: Route)
        requires
            old(self).wf(),
        ensures
            final(self).wf(),
            final(self).local_ip == old(self).local_ip,
            final(self).local_ip6 == old(self).local_ip6,
            (final(self)@, r@) == old(self)@.routed(raw@, channel, use_cache),
    {
        let p = match parse_ip_packet(raw) {
            Some(p) => p,
            None => {
                return Route::Ignore;
            },
        };
        proof {
            lemma_tuple_family(raw@);
        }
        if use_cache {
            let t = packet_tuple(&p);
            if let Some(channel) = self.cache.get(&t) {
                return Route::Cached(*channel);
            }
        }
        self.route_past_cache(&p, channel)
    }

    /// Decides what to do with a packet, past the cache.
    fn route_past_cache(&mut self, p: &TcpPacket, channel: u64) -> (r: Route)
        requires
            old(self).wf(),
            same_family(tuple_of(p@).local_addr, tuple_of(p@).remote_addr),
        ensures
            final(self).wf(),
            final(self).local_ip == old(self).local_ip,
            final(self).local_ip6 == old(self).local_ip6,
            (final(self)@, r@) == old(self)@.routed_past_cache(p@, channel),
    {
        let t = packet_tuple(p);
        let known: Option<u64> = match self.tuples.get(&t) {
            Some(channel) => Some(*channel),
            None => None,
        };
        if let Some(channel) = known {
            self.cache.insert(t, channel);
            return Route::Deliver(channel);
        }
        let none: Vec<u8> = Vec::new();
        assert(none@ =~= Seq::empty());
        if p.flags == SYN && self.listening.contains_key(&p.destination) {
            if p.seq == 0 {
                self.tuples.insert(t, channel);
                Route::Accept(Handshake::accept(t.local_addr, t.remote_addr))
            } else {
                let ack: u32 = seq_after(seq_after(p.seq, p.payload.len()), 1);
                assert(ack == seq_number(p.seq + p.payload@.len() + 1));
                Route::Reply(build_tcp_packet(t.local_addr, t.remote_addr, 0, ack, 20, &none))
            }
        } else if p.flags & RST == 0 {
            let ack: u32 = seq_after(p.seq, p.payload.len());
            Route::Reply(build_tcp_packet(t.local_addr, t.remote_addr, p.ack, ack, 20, &none))
        } else {
            Route::Ignore
        }
    }

    /// Forgets a connection that has ended.
    pub fn remove(&mut self, t: AddrTuple)
        requires
            old(self).wf(),
        ensures
            final(self).wf(),
            final(self).local_ip == old(self).local_ip,
            final(self).local_ip6 == old(self).local_ip6,
            final(self)@ == old(self)@.without(t),
    {
        let _ = self.tuples.remove(&t);
        let _ = self.cache.remove(&t);
    }

    /// The endpoints of a connection to `addr` from `port`.
    pub open spec fn outgoing(&self, addr: SocketAddr, port: u16) -> AddrTuple {
        AddrTuple {
            local_addr: SocketAddr::spec_new(
                if addr is V4 {
                    IpAddr::V4(self.local_ip)
                } else {
                    IpAddr::V6(self.local_ip6->0)
                },
                port,
            ),
            remote_addr: addr,
        }
    }

    /// `r` is what comes of the search from `start` on for a port for a connection to `addr`,
    /// and `after` is the stack after it: the first free port is taken, and there is none
    /// only where all are taken.
    pub open spec fn searched_from(
        &self,
        start: u16,
        addr: SocketAddr,
        channel: u64,
        after: StackState,
        r: Connect,
    ) -> bool {
        match r {
            Connect::Start(h) => exists|port: u16|
                {
                    let t = #[trigger] self.outgoing(addr, port);
                    &&& start <= port <= LAST_PORT
                    &&& !self@.tuples.contains_key(t)
                    &&& forall|q: u16|
                        start <= q < port ==> self@.tuples.contains_key(
                            #[trigger] self.outgoing(addr, q),
                        )
                    &&& h.wf()
                    &&& h == (Handshake {
                        socket: FtcpSocket::spec_new(
                            t.local_addr,
                            t.remote_addr,
                            None,
                            FtcpState::Idle,
                        ),
                        role: Role::Client,
                        attempts: 0,
                        strays: 0,
                    })
                    &&& after == (StackState {
                        tuples: self@.tuples.insert(t, channel),
                        ..self@
                    })
                },
            Connect::Exhausted => after == self@ && forall|q: u16|
                start <= q <= LAST_PORT ==> self@.tuples.contains_key(
                    #[trigger] self.outgoing(addr, q),
                ),
            Connect::NoRandomness => false,
        }
    }

    /// Takes the first free port from `start` on for a connection to `addr`.
    pub fn connect_from(&mut self, start: u16, addr: SocketAddr, channel: u64) -> (r: Connect)
        requires
            old(self).wf(),
            addr is V6 ==> old(self).local_ip6 is Some,
        ensures
            final(self).wf(),
            final(self).local_ip == old(self).local_ip,
            final(self).local_ip6 == old(self).local_ip6,
            old(self).searched_from(start, addr, channel, final(self)@, r),
    {
        let ip: IpAddr = match addr {
            SocketAddr::V4(_) => IpAddr::V4(self.local_ip),
            SocketAddr::V6(_) => match self.local_ip6 {
                Some(ip) => IpAddr::V6(ip),
                None => {
                    return Connect::Exhausted;
                },
            },
        };
        let mut port: u16 = start;
        while port <= LAST_PORT
            invariant
                self.wf(),
                *self == *old(self),
                start <= port,
                ip is V4 <==> addr is V4,
                forall|q: u16| #[trigger]
                    self.outgoing(addr, q) == (AddrTuple {
                        local_addr: SocketAddr::spec_new(ip, q),
                        remote_addr: addr,
                    }),
                forall|q: u16|
                    start <= q < port ==> self@.tuples.contains_key(
                        #[trigger] self.outgoing(addr, q),
                    ),
            decreases LAST_PORT + 1 - port,
        {
            let local_addr = SocketAddr::new(ip, port);
            let t = AddrTuple { local_addr, remote_addr: addr };
            assert(t == self.outgoing(addr, port));
            if !self.tuples.contains_key(&t) {
                self.tuples.insert(t, channel);
                let h = Handshake::connect(local_addr, addr);
                assert(t == old(self).outgoing(addr, port));
                return Connect::Start(h);
            }
            port += 1;
        }
        Connect::Exhausted
    }

    /// Takes a free port for a connection to `addr`. `start` is the port that was picked at
    /// random to begin with, or nothing where the system has no random numbers.
    pub fn connect_with(&mut self, start: Option<u16>, addr: SocketAddr, channel: u64) -> (r:
        Connect)
        requires
            old(self).wf(),
            addr is V6 ==> old(self).local_ip6 is Some,
        ensures
            final(self).wf(),
            final(self).local_ip == old(self).local_ip,
            final(self).local_ip6 == old(self).local_ip6,
            match start {
                Some(start) => old(self).searched_from(start, addr, channel, final(self)@, r),
                None => r is NoRandomness && final(self)@ == old(self)@,
            },
    {
        match start {
            Some(start) => self.connect_from(start, addr, channel),
            None => Connect::NoRandomness,
        }
    }

    /// Takes a free port for a connection to `addr`. The search starts at random.
    pub fn connect(&mut self, addr: SocketAddr, channel: u64) -> (r: Connect)
        requires
            old(self).wf(),
            addr is V6 ==> old(self).local_ip6 is Some,
        ensures
            final(self).wf(),
            final(self).local_ip == old(self).local_ip,
            final(self).local_ip6 == old(self).local_ip6,
            match r {
                Connect::Start(h) => exists|port: u16|
                    {
                        let t = #[trigger] old(self).outgoing(addr, port);
                        &&& FIRST_PORT <= port <= LAST_PORT
                        &&& !old(self)@.tuples.contains_key(t)
                        &&& h.wf()
                        &&& h == (Handshake {
                            socket: FtcpSocket::spec_new(
                                t.local_addr,
                                t.remote_addr,
                                None,
                                FtcpState::Idle,
                            ),
                            role: Role::Client,
                            attempts: 0,
                            strays: 0,
                        })
                        &&& final(self)@ == (StackState {
                            tuples: old(self)@.tuples.insert(t, channel),
                            ..old(self)@
                        })
                    },
                Connect::Exhausted => final(self)@ == old(self)@ && old(
                    self,
                )@.tuples.contains_key(old(self).outgoing(addr, LAST_PORT)),
                Connect::NoRandomness => final(self)@ == old(self)@,
            },
    {
        self.connect_with(random_port(FIRST_PORT, LAST_PORT), addr, channel)
    }
}

/// A packet is never handed to another connection than the one between its endpoints.
#[verifier::rlimit(60)]
pub proof fn law_packets_reach_their_connection(s: StackState, raw: Seq<u8>, channel: u64, use_cache: bool)
    ensures
        match s.routed(raw, channel, use_cache).1 {
            RouteView::Deliver(c) => parse_packet(raw) is Some && s.tuples.contains_key(
                tuple_of(parse_packet(raw)->0),
            ) && c == s.tuples[tuple_of(parse_packet(raw)->0)],
            RouteView::Cached(c) => parse_packet(raw) is Some && s.cache.contains_key(
                tuple_of(parse_packet(raw)->0),
            ) && c == s.cache[tuple_of(parse_packet(raw)->0)],
            _ => true,
        },
{
}

/// The endpoint as a packet tells it: without flow and scope.
pub open spec fn plain(addr: SocketAddr) -> SocketAddr {
    SocketAddr::spec_new(addr.spec_ip(), addr.spec_port())
}

/// What becomes of a client's request, where there is no connection between the endpoints
/// yet. If the server listens on the port, it accepts the connection, between the same
/// endpoints. Otherwise it answers with a packet by which the client knows that it is
/// refused.
pub proof fn law_requests_are_answered(
    server: StackState,
    client: Handshake,
    channel: u64,
    use_cache: bool,
)
    requires
        client.wf(),
        client.role == Role::Client,
        ({
            let t = AddrTuple {
                local_addr: plain(client.socket.remote_addr),
                remote_addr: plain(client.socket.local_addr),
            };
            !server.tuples.contains_key(t) && !server.cache.contains_key(t)
        }),
    ensures
        ({
            let t = AddrTuple {
                local_addr: plain(client.socket.remote_addr),
                remote_addr: plain(client.socket.local_addr),
            };
            let request = client.socket.packet(opening_flags(client.role), Seq::empty());
            let (after, route) = server.routed(request, channel, use_cache);
            if server.listening.contains(client.socket.remote_addr.spec_port()) {
                &&& route == RouteView::Accept(accepted(t))
                &&& after.tuples == server.tuples.insert(t, channel)
            } else {
                &&& after == server
                &&& route is Reply
                &&& client.after_reply(Some(route->Reply_0)) == (client, ReplyView::Refused)
            }
        }),
{
    let c = client.socket;
    law_packet_roundtrip(c.local_addr, c.remote_addr, c.seq, c.ack, 2, Seq::empty());
    assert(2u8 & 4u8 == 0) by (bit_vector);
    assert(20u8 & 4u8 != 0) by (bit_vector);
    law_packet_roundtrip(
        plain(c.remote_addr),
        plain(c.local_addr),
        c.ack,
        seq_number(c.seq as int),
        20,
        Seq::empty(),
    );
}

/// A datagram for which there is no connection is answered, and by the answer its sender
/// knows that the connection has ended.
pub proof fn law_stray_datagrams_end_the_connection(
    s: StackState,
    a: FtcpSocket,
    payload: Seq<u8>,
    channel: u64,
    use_cache: bool,
    max: nat,
)
    requires
        a.wf(),
        ({
            let t = AddrTuple {
                local_addr: plain(a.remote_addr),
                remote_addr: plain(a.local_addr),
            };
            !s.tuples.contains_key(t) && !s.cache.contains_key(t)
        }),
    ensures
        ({
            let (after, route) = s.routed(a.packet(ACK, payload), channel, use_cache);
            &&& after == s
            &&& route is Reply
            &&& a.after_recv(route->Reply_0, max) == (a, RecvView::Closed)
        }),
{
    law_packet_roundtrip(a.local_addr, a.remote_addr, a.seq, a.ack, ACK, payload);
    assert(16u8 & 4u8 == 0) by (bit_vector);
    assert(20u8 & 4u8 != 0) by (bit_vector);
    law_packet_roundtrip(
        plain(a.remote_addr),
        plain(a.local_addr),
        a.ack,
        seq_number(a.seq + payload.len()),
        20,
        Seq::empty(),
    );
}

/// After a connection was accepted, its packets go to it.
pub proof fn law_accepted_connections_get_their_packets(
    s: StackState,
    request: Seq<u8>,
    channel: u64,
    raw: Seq<u8>,
    other: u64,
)
    requires
        s.routed(request, channel, false).1 is Accept,
        parse_packet(raw) is Some,
        tuple_of(parse_packet(raw)->0) == tuple_of(parse_packet(request)->0),
    ensures
        s.routed(request, channel, false).0.routed(raw, other, false).1 == RouteView::Deliver(
            channel,
        ),
{
}

/// Every channel in the cache is that of a connection.
pub open spec fn cache_sound(s: StackState) -> bool {
    forall|t: AddrTuple| #[trigger]
        s.cache.contains_key(t) ==> s.tuples.contains_key(t) && s.cache[t] == s.tuples[t]
}

/// Neither routing a packet, nor opening a connection, nor forgetting one lets the cache and
/// the connections disagree.
pub proof fn law_cache_agrees(
    s: StackState,
    raw: Seq<u8>,
    channel: u64,
    use_cache: bool,
    t: AddrTuple,
)
    requires
        cache_sound(s),
    ensures
        cache_sound(s.routed(raw, channel, use_cache).0),
        !s.tuples.contains_key(t) ==> cache_sound(
            StackState { tuples: s.tuples.insert(t, channel), ..s },
        ),
        cache_sound(s.without(t)),
{
}

/// A reset is never answered.
pub proof fn law_resets_are_not_answered(s: StackState, raw: Seq<u8>, channel: u64, use_cache: bool)
    requires
        parse_packet(raw) is Some,
        parse_packet(raw)->0.fields.flags & RST != 0,
    ensures
        s.routed(raw, channel, use_cache).1 !is Reply,
        s.routed(raw, channel, use_cache).1 !is Accept,
{
    assert(2u8 & 4u8 == 0) by (bit_vector);
}

/// A packet that can be read and whose endpoints are those of a connection is handed to it,
/// whatever its flags and its payload are, and whether or not its port is one on which
/// connections are accepted. Where the cache is in use and knows the endpoints, it goes to the
/// channel in the cache, and nothing changes; otherwise it goes to the channel of the
/// connection, which the cache then knows.
pub proof fn law_connections_get_their_packets(
    s: StackState,
    raw: Seq<u8>,
    channel: u64,
    use_cache: bool,
)
    requires
        parse_packet(raw) is Some,
    ensures
        ({
            let p = parse_packet(raw)->0;
            let t = AddrTuple {
                local_addr: SocketAddr::spec_new(p.dst, p.fields.destination),
                remote_addr: SocketAddr::spec_new(p.src, p.fields.source),
            };
            let (after, route) = s.routed(raw, channel, use_cache);
            &&& use_cache && s.cache.contains_key(t) ==> route == RouteView::Cached(s.cache[t])
                && after == s
            &&& s.tuples.contains_key(t) && !(use_cache && s.cache.contains_key(t)) ==> {
                &&& route == RouteView::Deliver(s.tuples[t])
                &&& after.tuples == s.tuples
                &&& after.listening == s.listening
                &&& after.cache == s.cache.insert(t, s.tuples[t])
            }
        }),
{
}

/// What becomes of any packet that belongs to no connection. One that cannot be read is
/// dropped. One that only asks for a connection, to a port on which connections are accepted,
/// starts the handshake of a new connection between its endpoints, if its sequence number is
/// zero; that connection gets the channel. If its number is another one it is answered by a
/// packet from its receiver to its sender that resets, and acknowledges the packet and what is
/// in it. A reset is dropped. Anything else is answered by a reset that goes on at the number
/// which the packet acknowledges. But for a new connection nothing changes.
#[verifier::rlimit(60)]
pub proof fn law_strangers_are_accepted_or_reset(
    s: StackState,
    raw: Seq<u8>,
    channel: u64,
    use_cache: bool,
)
    ensures
        ({
            let (after, route) = s.routed(raw, channel, use_cache);
            match parse_packet(raw) {
                None => route == RouteView::Ignore && after == s,
                Some(p) => {
                    let t = AddrTuple {
                        local_addr: SocketAddr::spec_new(p.dst, p.fields.destination),
                        remote_addr: SocketAddr::spec_new(p.src, p.fields.source),
                    };
                    let known = s.tuples.contains_key(t) || use_cache && s.cache.contains_key(t);
                    let request = p.fields.flags == 2 && s.listening.contains(p.fields.destination);
                    if known {
                        true
                    } else if request && p.fields.seq == 0 {
                        &&& route matches RouteView::Accept(h) && {
                            &&& h.role == Role::Server
                            &&& h.attempts == 0 && h.strays == 0
                            &&& h.socket.local_addr == t.local_addr
                            &&& h.socket.remote_addr == t.remote_addr
                            &&& h.socket.seq == 0
                            &&& h.socket.ack == 1 && h.socket.last_ack == 1
                            &&& h.socket.state == FtcpState::Idle
                        }
                        &&& after == (StackState { tuples: s.tuples.insert(t, channel), ..s })
                    } else if !request && p.fields.flags & 4 != 0 {
                        route == RouteView::Ignore && after == s
                    } else {
                        &&& after == s
                        &&& route matches RouteView::Reply(answer) && (parse_packet(answer) matches
                            Some(q) && {
                            &&& q.src == p.dst && q.dst == p.src
                            &&& q.fields.source == p.fields.destination
                            &&& q.fields.destination == p.fields.source
                            &&& q.fields.flags == 4 + 16
                            &&& q.payload.len() == 0
                            &&& if request {
                                &&& q.fields.seq == 0
                                &&& q.fields.ack as int == (p.fields.seq + p.payload.len() + 1)
                                    % 0x1_0000_0000
                            } else {
                                &&& q.fields.seq == p.fields.ack
                                &&& q.fields.ack as int == (p.fields.seq + p.payload.len())
                                    % 0x1_0000_0000
                            }
                        })
                    }
                },
            }
        }),
{
    if let Some(p) = parse_packet(raw) {
        let t = tuple_of(p);
        lemma_tuple_family(raw);
        law_packet_roundtrip(
            t.local_addr,
            t.remote_addr,
            0,
            seq_number(p.fields.seq + p.payload.len() + 1),
            20,
            Seq::empty(),
        );
        law_packet_roundtrip(
            t.local_addr,
            t.remote_addr,
            p.fields.ack,
            seq_number(p.fields.seq + p.payload.len() + 0),
            20,
            Seq::empty(),
        );
    }
}

/// A connection that has ended is forgotten, and nothing else is.
pub proof fn law_only_the_ended_connection_is_forgotten(s: StackState, t: AddrTuple, other: AddrTuple)
    ensures
        !s.without(t).tuples.contains_key(t),
        !s.without(t).cache.contains_key(t),
        s.without(t).listening == s.listening,
        other != t ==> (s.without(t).tuples.contains_key(other) <==> s.tuples.contains_key(other)),
        other != t ==> (s.without(t).cache.contains_key(other) <==> s.cache.contains_key(other)),
        other != t && s.tuples.contains_key(other) ==> s.without(t).tuples[other]
            == s.tuples[other],
        other != t && s.cache.contains_key(other) ==> s.without(t).cache[other] == s.cache[other],
{
}

/// Outgoing connections come from the own address of the IP version of the other end, from the
/// first port that is free for it, and from no port above 60999. There is none only where all
/// ports from the start on are taken. Only the new connection is added.
#[verifier::rlimit(60)]
pub proof fn law_outgoing_connections_take_the_first_free_port(
    stack: FtcpStack,
    start: u16,
    addr: SocketAddr,
    channel: u64,
    after: StackState,
    r: Connect,
    q: u16,
)
    requires
        stack.searched_from(start, addr, channel, after, r),
        addr is V6 ==> stack.local_ip6 is Some,
    ensures
        ({
            let own = if addr is V4 {
                IpAddr::V4(stack.local_ip)
            } else {
                IpAddr::V6(stack.local_ip6->0)
            };
            let from_q = AddrTuple {
                local_addr: SocketAddr::spec_new(own, q),
                remote_addr: addr,
            };
            let taken = stack.tuples@.contains_key(from_q);
            match r {
                Connect::Start(h) => {
                    let s = h.socket;
                    let t = AddrTuple { local_addr: s.local_addr, remote_addr: s.remote_addr };
                    let port = s.local_addr.spec_port();
                    &&& s.remote_addr == addr
                    &&& s.local_addr == SocketAddr::spec_new(own, port)
                    &&& start <= port <= 60999
                    &&& start <= q < port ==> taken
                    &&& q == port ==> !taken
                    &&& h.role == Role::Client
                    &&& h.attempts == 0 && h.strays == 0
                    &&& s.seq == 0 && s.ack == 0 && s.last_ack == 0
                    &&& s.state == FtcpState::Idle
                    &&& after.tuples == stack.tuples@.insert(t, channel)
                    &&& after.listening == stack.listening@.dom()
                    &&& after.cache == stack.cache@
                },
                Connect::Exhausted => {
                    &&& start <= q <= 60999 ==> taken
                    &&& after == stack@
                },
                Connect::NoRandomness => false,
            }
        }),
        FIRST_PORT == 32768,
        LAST_PORT == 60999,
{
    let own = if addr is V4 {
        IpAddr::V4(stack.local_ip)
    } else {
        IpAddr::V6(stack.local_ip6->0)
    };
    assert(stack.outgoing(addr, q) == (AddrTuple {
        local_addr: SocketAddr::spec_new(own, q),
        remote_addr: addr,
    }));
    if let Connect::Start(h) = r {
        let port = choose|port: u16|
            {
                let t = #[trigger] stack.outgoing(addr, port);
                &&& start <= port <= LAST_PORT
                &&& !stack@.tuples.contains_key(t)
                &&& forall|q: u16|
                    start <= q < port ==> stack@.tuples.contains_key(
                        #[trigger] stack.outgoing(addr, q),
                    )
                &&& h.wf()
                &&& h == (Handshake {
                    socket: FtcpSocket::spec_new(
                        t.local_addr,
                        t.remote_addr,
                        None,
                        FtcpState::Idle,
                    ),
                    role: Role::Client,
                    attempts: 0,
                    strays: 0,
                })
                &&& after == (StackState {
                    tuples: stack@.tuples.insert(t, channel),
                    ..stack@
                })
            };
        assert(stack.outgoing(addr, port).local_addr.spec_port() == port);
    }
}

/// What is seen of a decision is all of it, and what is seen of a stack is its connections, the
/// ports on which it accepts some, and its cache.
pub proof fn law_stacks_are_seen_whole(stack: FtcpStack, route: Route, port: u16)
    ensures
        stack@.tuples == stack.tuples@,
        stack@.cache == stack.cache@,
        stack@.listening.contains(port) <==> stack.listening@.contains_key(port),
        route is Ignore <==> route@ is Ignore,
        route matches Route::Cached(c) ==> route@ == RouteView::Cached(c),
        route matches Route::Deliver(c) ==> route@ == RouteView::Deliver(c),
        route matches Route::Accept(h) ==> route@ == RouteView::Accept(h),
        route matches Route::Reply(packet) ==> route@ == RouteView::Reply(packet@),
{
}

} // verus!
