//! One fake-TCP connection.

use crate::addr::SocketAddr;
use crate::phantun::packet::{
    build_tcp_packet, law_packet_roundtrip, parse_ip_packet, parse_packet, same_family, tcp_packet,
    ACK, RST, SYN,
};
use crate::wire::optional_bytes;
use vstd::prelude::*;

verus! {

/// How often a handshake sends its first packet again when it is not answered.
pub const RETRIES: usize = 6;

/// How many packets that do not count a handshake takes in answer to its first packet.
pub const MAX_STRAYS: usize = 5;

/// How much may have arrived without being acknowledged.
pub const MAX_UNACKED_LEN: u32 = 0x800_0000;

/// Where a connection stands.
#[derive(Debug, Clone, Copy, PartialEq, Eq, Structural)]
pub enum FtcpState {
    /// Nothing has been sent.
    Idle,
    /// The client has asked for the connection.
    SynSent,
    /// The server has agreed to it.
    SynReceived,
    /// Datagrams can be exchanged.
    Established,
}

/// One end of a connection.
#[derive(Debug, Clone, Copy, PartialEq, Eq, Structural)]
pub struct FtcpSocket {
    /// The own endpoint.
    pub local_addr: SocketAddr,
    /// The other endpoint.
    pub remote_addr: SocketAddr,
    /// The sequence number of the next segment.
    pub seq: u32,
    /// Up to where the other end has been heard.
    pub ack: u32,
    /// Up to where the other end knows that it has been heard.
    pub last_ack: u32,
    /// Where the connection stands.
    pub state: FtcpState,
}

/// What came of a packet.
#[derive(Debug)]
pub enum RecvStep {
    /// The connection has ended.
    Closed,
    /// There is no datagram in it. An acknowledgement may have to be sent.
    Skip(Option<Vec<u8>>),
    /// An acknowledgement may have to be sent, then the datagram is to be handed over.
    Deliver(Option<Vec<u8>>, Vec<u8>),
}

/// What came of a packet.
pub enum RecvView {
    /// The connection has ended.
    Closed,
    /// There is no datagram in it. An acknowledgement may have to be sent.
    Skip(Option<Seq<u8>>),
    /// An acknowledgement may have to be sent, then the datagram is to be handed over.
    Deliver(Option<Seq<u8>>, Seq<u8>),
}

impl View for RecvStep {
    type V = RecvView;

    open spec fn view(&self) -> RecvView {
        match *self {
            RecvStep::Closed => RecvView::Closed,
            RecvStep::Skip(reply) => RecvView::Skip(optional_bytes(reply)),
            RecvStep::Deliver(reply, data) => RecvView::Deliver(optional_bytes(reply), data@),
        }
    }
}

/// A sequence number: they count in a circle of 32 bits.
pub open spec fn seq_number(x: int) -> u32 {
    (x % 0x1_0000_0000) as u32
}

/// The sequence number `len` bytes after `seq`.
pub fn seq_after(seq: u32, len: usize) -> (r: u32)
    ensures
        r == seq_number(seq + len),
{
    let len: u64 = (len as u128 % 0x1_0000_0000) as u64;
    ((seq as u64 + len) % 0x1_0000_0000) as u32
}

/// The first `max` bytes of a datagram.
pub open spec fn cut(data: Seq<u8>, max: nat) -> Seq<u8> {
    if data.len() <= max {
        data
    } else {
        data.take(max as int)
    }
}

impl FtcpSocket {
    /// Both endpoints are of one IP version.
    pub open spec fn wf(self) -> bool {
        same_family(self.local_addr, self.remote_addr)
    }

    /// A socket between two endpoints. `ack` is up to where the other end has been heard.
    pub fn new(
        local_addr: SocketAddr,
        remote_addr: SocketAddr,
        ack: Option<u32>,
        state: FtcpState,
    ) -> (s: FtcpSocket)
        ensures
            s == FtcpSocket::spec_new(local_addr, remote_addr, ack, state),
    {
        let ack: u32 = match ack {
            Some(ack) => ack,
            None => 0,
        };
        FtcpSocket { local_addr, remote_addr, seq: 0, ack, last_ack: ack, state }
    }

    /// A socket between two endpoints.
    pub open spec fn spec_new(
        local_addr: SocketAddr,
        remote_addr: SocketAddr,
        ack: Option<u32>,
        state: FtcpState,
    ) -> FtcpSocket {
        let ack = match ack {
            Some(ack) => ack,
            None => 0,
        };
        FtcpSocket { local_addr, remote_addr, seq: 0, ack, last_ack: ack, state }
    }

    /// A packet with the current numbers.
    pub open spec fn packet(self, flags: u8, payload: Seq<u8>) -> Seq<u8> {
        tcp_packet(self.local_addr, self.remote_addr, self.seq, self.ack, flags, payload)
    }

    /// The socket after it has sent an acknowledgement.
    pub open spec fn acknowledged(self) -> FtcpSocket {
        FtcpSocket { last_ack: self.ack, ..self }
    }

    /// Builds a packet with the current numbers. It acknowledges what was heard.
    pub fn build_pkt(&mut self, flags: u8, payload: &[u8]) -> (packet: Vec<u8>)
        requires
            old(self).wf(),
            payload@.len() + 64 <= usize::MAX,
        ensures
            packet@ == old(self).packet(flags, payload@),
            *final(self) == old(self).acknowledged(),
    {
        self.last_ack = self.ack;
        build_tcp_packet(self.local_addr, self.remote_addr, self.seq, self.ack, flags, payload)
    }

    /// The socket after it has sent a datagram.
    pub open spec fn after_send(self, payload: Seq<u8>) -> FtcpSocket {
        FtcpSocket {
            seq: seq_number(self.seq + payload.len()),
            last_ack: self.ack,
            ..self
        }
    }

    /// Builds the packet that carries a datagram. Before the connection is established there
    /// is none.
    pub fn send(&mut self, payload: &[u8]) -> (r: Option<Vec<u8>>)
        requires
            old(self).wf(),
            payload@.len() + 64 <= usize::MAX,
        ensures
            match r {
                Some(packet) => old(self).state == FtcpState::Established && packet@
                    == old(self).packet(ACK, payload@) && *final(self) == old(self).after_send(
                    payload@,
                ),
                None => old(self).state != FtcpState::Established && *final(self) == *old(self),
            },
    {
        if self.state != FtcpState::Established {
            return None;
        }
        let packet = self.build_pkt(ACK, payload);
        self.seq = seq_after(self.seq, payload.len());
        Some(packet)
    }

    /// What comes of a packet, and the socket after it. A packet that cannot be read, or that
    /// resets the connection, ends it. Every other one moves the acknowledgement; when much
    /// has gone unacknowledged, an acknowledgement is sent.
    pub open spec fn after_recv(self, raw: Seq<u8>, max: nat) -> (FtcpSocket, RecvView) {
        match parse_packet(raw) {
            Some(p) => {
                if self.state != FtcpState::Established || p.fields.flags & RST != 0 {
                    (self, RecvView::Closed)
                } else {
                    let heard = FtcpSocket {
                        ack: seq_number(p.fields.seq + p.payload.len()),
                        ..self
                    };
                    let owing = heard.ack.wrapping_sub(self.last_ack) > MAX_UNACKED_LEN;
                    let reply = if owing {
                        Some(heard.packet(ACK, Seq::empty()))
                    } else {
                        None
                    };
                    let after = if owing {
                        heard.acknowledged()
                    } else {
                        heard
                    };
                    if p.payload.len() == 0 {
                        (after, RecvView::Skip(reply))
                    } else {
                        (after, RecvView::Deliver(reply, cut(p.payload, max)))
                    }
                }
            },
            None => (self, RecvView::Closed),
        }
    }

    /// Takes a packet of the other end. Bare acknowledgements hold no datagram. A datagram of
    /// more than `max` bytes is cut off.
    pub fn recv(&mut self, raw: &[u8], max: usize) -> (step: RecvStep)
        requires
            old(self).wf(),
        ensures
            (*final(self), step@) == old(self).after_recv(raw@, max as nat),
    {
        if self.state != FtcpState::Established {
            return RecvStep::Closed;
        }
        let p = match parse_ip_packet(raw) {
            Some(p) => p,
            None => {
                return RecvStep::Closed;
            },
        };
        if p.flags & RST != 0 {
            return RecvStep::Closed;
        }
        let last: u32 = self.last_ack;
        self.ack = seq_after(p.seq, p.payload.len());
        let reply = if self.ack.wrapping_sub(last) > MAX_UNACKED_LEN {
            let none: Vec<u8> = Vec::new();
            assert(none@ =~= Seq::empty());
            Some(self.build_pkt(ACK, &none))
        } else {
            None
        };
        if p.payload.len() == 0 {
            RecvStep::Skip(reply)
        } else {
            let mut data = p.payload;
            let ghost whole = data@;
            data.truncate(max);
            assert(data@ =~= cut(whole, max as nat));
            RecvStep::Deliver(reply, data)
        }
    }

    /// Builds the packet that resets the connection.
    pub fn rst_packet(&self) -> (packet: Vec<u8>)
        requires
            self.wf(),
        ensures
            packet@ == tcp_packet(
                self.local_addr,
                self.remote_addr,
                self.seq,
                0,
                RST,
                Seq::empty(),
            ),
    {
        let none: Vec<u8> = Vec::new();
        assert(none@ =~= Seq::empty());
        build_tcp_packet(self.local_addr, self.remote_addr, self.seq, 0, RST, &none)
    }
}

/// Which side of a handshake.
#[derive(Debug, Clone, Copy, PartialEq, Eq, Structural)]
pub enum Role {
    /// Asks for the connection.
    Client,
    /// Agrees to it.
    Server,
}

/// A connection that is being established.
#[derive(Debug, Clone, Copy, PartialEq, Eq, Structural)]
pub struct Handshake {
    /// The own end.
    pub socket: FtcpSocket,
    /// The own side.
    pub role: Role,
    /// How often it has sent its first packet.
    pub attempts: usize,
    /// How many packets that do not count have arrived since.
    pub strays: usize,
}

/// What a handshake does next.
#[derive(Debug)]
pub enum HandshakeAction {
    /// Send this packet.
    Send(Vec<u8>),
    /// Wait for a packet, up to the handshake timeout.
    Wait,
    /// End without a connection.
    GiveUp,
}

/// What a handshake does next.
pub enum ActionView {
    /// Send this packet.
    Send(Seq<u8>),
    /// Wait for a packet, up to the handshake timeout.
    Wait,
    /// End without a connection.
    GiveUp,
}

impl View for HandshakeAction {
    type V = ActionView;

    open spec fn view(&self) -> ActionView {
        match *self {
            HandshakeAction::Send(packet) => ActionView::Send(packet@),
            HandshakeAction::Wait => ActionView::Wait,
            HandshakeAction::GiveUp => ActionView::GiveUp,
        }
    }
}

/// What came of waiting.
#[derive(Debug)]
pub enum HandshakeReply {
    /// Nothing yet.
    Pending,
    /// The other end does not want the connection.
    Refused,
    /// The connection stands, once this packet has been sent.
    Established(Option<Vec<u8>>),
}

/// What came of waiting.
pub enum ReplyView {
    /// Nothing yet.
    Pending,
    /// The other end does not want the connection.
    Refused,
    /// The connection stands, once this packet has been sent.
    Established(Option<Seq<u8>>),
}

impl View for HandshakeReply {
    type V = ReplyView;

    open spec fn view(&self) -> ReplyView {
        match *self {
            HandshakeReply::Pending => ReplyView::Pending,
            HandshakeReply::Refused => ReplyView::Refused,
            HandshakeReply::Established(packet) => ReplyView::Established(optional_bytes(packet)),
        }
    }
}

/// The flags of the packet that a side starts with: the client opens, the server agrees.
pub open spec fn opening_flags(role: Role) -> u8 {
    match role {
        Role::Client => 2,
        Role::Server => 18,
    }
}

/// The flags of the packet that a side waits for.
pub open spec fn awaited_flags(role: Role) -> u8 {
    match role {
        Role::Client => 18,
        Role::Server => 16,
    }
}

/// The state in which a side waits.
pub open spec fn waiting_state(role: Role) -> FtcpState {
    match role {
        Role::Client => FtcpState::SynSent,
        Role::Server => FtcpState::SynReceived,
    }
}

impl Handshake {
    /// The handshake has not ended, and no data has been sent.
    pub open spec fn wf(self) -> bool {
        &&& self.socket.wf()
        &&& self.socket.seq == 0
        &&& self.attempts <= RETRIES + 1
        &&& self.strays <= MAX_STRAYS
        &&& self.socket.state == FtcpState::Idle || self.socket.state == waiting_state(self.role)
    }

    /// The handshake of the side that asks for a connection.
    pub fn connect(local_addr: SocketAddr, remote_addr: SocketAddr) -> (h: Handshake)
        requires
            same_family(local_addr, remote_addr),
        ensures
            h.wf(),
            h == (Handshake {
                socket: FtcpSocket::spec_new(local_addr, remote_addr, None, FtcpState::Idle),
                role: Role::Client,
                attempts: 0,
                strays: 0,
            }),
    {
        Handshake {
            socket: FtcpSocket::new(local_addr, remote_addr, None, FtcpState::Idle),
            role: Role::Client,
            attempts: 0,
            strays: 0,
        }
    }

    /// The handshake of the side that was asked, by a packet with sequence number zero.
    pub fn accept(local_addr: SocketAddr, remote_addr: SocketAddr) -> (h: Handshake)
        requires
            same_family(local_addr, remote_addr),
        ensures
            h.wf(),
            h == (Handshake {
                socket: FtcpSocket::spec_new(local_addr, remote_addr, Some(1), FtcpState::Idle),
                role: Role::Server,
                attempts: 0,
                strays: 0,
            }),
    {
        Handshake {
            socket: FtcpSocket::new(local_addr, remote_addr, Some(1), FtcpState::Idle),
            role: Role::Server,
            attempts: 0,
            strays: 0,
        }
    }

    /// The handshake after it has sent its first packet, once more.
    pub open spec fn after_opening(self) -> Handshake {
        Handshake {
            socket: FtcpSocket {
                state: waiting_state(self.role),
                ..self.socket.acknowledged()
            },
            attempts: (self.attempts + 1) as usize,
            strays: 0,
            ..self
        }
    }

    /// What to do next, and the handshake after it. The first packet is sent, and sent again
    /// when it was not answered in time, until all retries are made. In between the
    /// handshake waits, unless too many packets have arrived that do not count.
    pub open spec fn stepped(self) -> (Handshake, ActionView) {
        if self.socket.state == FtcpState::Idle {
            if self.attempts <= RETRIES {
                (
                    self.after_opening(),
                    ActionView::Send(self.socket.packet(opening_flags(self.role), Seq::empty())),
                )
            } else {
                (self, ActionView::GiveUp)
            }
        } else if self.strays < MAX_STRAYS {
            (self, ActionView::Wait)
        } else {
            (self, ActionView::GiveUp)
        }
    }

    /// Decides what to do next.
    pub fn next(&mut self) -> (action: HandshakeAction)
        requires
            old(self).wf(),
        ensures
            final(self).wf(),
            (*final(self), action@) == old(self).stepped(),
    {
        if self.socket.state != FtcpState::Idle {
            return if self.strays < MAX_STRAYS {
                HandshakeAction::Wait
            } else {
                HandshakeAction::GiveUp
            };
        }
        if self.attempts > RETRIES {
            return HandshakeAction::GiveUp;
        }
        self.attempts = self.attempts + 1;
        self.strays = 0;
        let none: Vec<u8> = Vec::new();
        assert(none@ =~= Seq::empty());
        let packet = match self.role {
            Role::Client => {
                let packet = self.socket.build_pkt(2, &none);
                self.socket.state = FtcpState::SynSent;
                packet
            },
            Role::Server => {
                let packet = self.socket.build_pkt(18, &none);
                self.socket.state = FtcpState::SynReceived;
                packet
            },
        };
        HandshakeAction::Send(packet)
    }

    /// The handshake after a packet that does not count.
    pub open spec fn after_stray(self) -> Handshake {
        Handshake {
            strays: if self.strays < MAX_STRAYS {
                (self.strays + 1) as usize
            } else {
                self.strays
            },
            ..self
        }
    }

    /// What comes of waiting, and the handshake after it. After too long a wait the first
    /// packet is sent again. A packet that resets ends the handshake; the awaited one, if it
    /// acknowledges the first packet, completes it; all others are strays.
    pub open spec fn after_reply(self, reply: Option<Seq<u8>>) -> (Handshake, ReplyView) {
        match reply {
            None => (
                Handshake {
                    socket: FtcpSocket { state: FtcpState::Idle, ..self.socket },
                    ..self
                },
                ReplyView::Pending,
            ),
            Some(raw) => match parse_packet(raw) {
                None => (self.after_stray(), ReplyView::Pending),
                Some(p) => {
                    if p.fields.flags & RST != 0 {
                        (self, ReplyView::Refused)
                    } else if p.fields.flags == awaited_flags(self.role) && p.fields.ack
                        == seq_number(self.socket.seq + 1) {
                        match self.role {
                            Role::Client => {
                                let heard = FtcpSocket {
                                    seq: seq_number(self.socket.seq + 1),
                                    ack: seq_number(p.fields.seq + 1),
                                    ..self.socket
                                };
                                (
                                    Handshake {
                                        socket: FtcpSocket {
                                            state: FtcpState::Established,
                                            ..heard.acknowledged()
                                        },
                                        ..self
                                    },
                                    ReplyView::Established(Some(heard.packet(ACK, Seq::empty()))),
                                )
                            },
                            Role::Server => (
                                Handshake {
                                    socket: FtcpSocket {
                                        seq: seq_number(self.socket.seq + 1),
                                        state: FtcpState::Established,
                                        ..self.socket
                                    },
                                    ..self
                                },
                                ReplyView::Established(None),
                            ),
                        }
                    } else {
                        (self.after_stray(), ReplyView::Pending)
                    }
                },
            },
        }
    }

    /// Takes note of a packet that does not count.
    fn note_stray(&mut self)
        ensures
            *final(self) == old(self).after_stray(),
    {
        if self.strays < MAX_STRAYS {
            self.strays = self.strays + 1;
        }
    }

    /// Takes what came of waiting: a packet, or nothing in time.
    pub fn on_reply(&mut self, reply: Option<&[u8]>) -> (r: HandshakeReply)
        requires
            old(self).wf(),
            old(self).socket.state == waiting_state(old(self).role),
        ensures
            (*final(self), r@) == old(self).after_reply(
                match reply {
                    Some(raw) => Some(raw@),
                    None => None,
                },
            ),
            r !is Established ==> final(self).wf(),
            r is Established ==> final(self).socket.wf() && final(self).socket.state
                == FtcpState::Established,
    {
        let raw = match reply {
            Some(raw) => raw,
            None => {
                self.socket.state = FtcpState::Idle;
                return HandshakeReply::Pending;
            },
        };
        let p = match parse_ip_packet(raw) {
            Some(p) => p,
            None => {
                self.note_stray();
                return HandshakeReply::Pending;
            },
        };
        if p.flags & RST != 0 {
            return HandshakeReply::Refused;
        }
        let expected: u32 = seq_after(self.socket.seq, 1);
        match self.role {
            Role::Client => {
                if p.flags == 18 && p.ack == expected {
                    self.socket.seq = expected;
                    self.socket.ack = seq_after(p.seq, 1);
                    let none: Vec<u8> = Vec::new();
                    assert(none@ =~= Seq::empty());
                    let packet = self.socket.build_pkt(ACK, &none);
                    self.socket.state = FtcpState::Established;
                    HandshakeReply::Established(Some(packet))
                } else {
                    self.note_stray();
                    HandshakeReply::Pending
                }
            },
            Role::Server => {
                if p.flags == 16 && p.ack == expected {
                    self.socket.seq = expected;
                    self.socket.state = FtcpState::Established;
                    HandshakeReply::Established(None)
                } else {
                    self.note_stray();
                    HandshakeReply::Pending
                }
            },
        }
    }
}

/// Packets without the flag RST.
proof fn lemma_flags()
    ensures
        2u8 & RST == 0,
        16u8 & RST == 0,
        18u8 & RST == 0,
{
    assert(2u8 & 4u8 == 0) by (bit_vector);
    assert(16u8 & 4u8 == 0) by (bit_vector);
    assert(18u8 & 4u8 == 0) by (bit_vector);
}

/// The two sides of a handshake understand each other: the client's first packet is one that
/// a server answers, the server's answer completes the handshake for the client, and the
/// client's acknowledgement completes it for the server. Each side then continues with the
/// number that the other expects.
pub proof fn law_handshake_completes(client: Handshake, server: Handshake)
    requires
        client.wf(),
        server.wf(),
        client.role == Role::Client,
        server.role == Role::Server,
        client.socket.state == FtcpState::SynSent,
        server.socket.state == FtcpState::SynReceived,
        server.socket.ack == 1,
    ensures
        ({
            let opening = parse_packet(client.socket.packet(2, Seq::empty()));
            let answer = server.socket.packet(18, Seq::empty());
            let (client_after, client_reply) = client.after_reply(Some(answer));
            &&& opening is Some
            &&& opening->0.fields.flags == SYN
            &&& opening->0.fields.seq == 0
            &&& client_after.socket.state == FtcpState::Established
            &&& client_reply is Established
            &&& client_reply->Established_0 is Some
            &&& {
                let (server_after, server_reply) = server.after_reply(client_reply->Established_0);
                &&& server_after.socket.state == FtcpState::Established
                &&& server_reply == ReplyView::Established(None)
                &&& client_after.socket.seq == server_after.socket.ack
                &&& server_after.socket.seq == client_after.socket.ack
            }
        }),
{
    lemma_flags();
    let c = client.socket;
    let s = server.socket;
    law_packet_roundtrip(c.local_addr, c.remote_addr, c.seq, c.ack, 2, Seq::empty());
    law_packet_roundtrip(s.local_addr, s.remote_addr, s.seq, s.ack, 18, Seq::empty());
    let heard = FtcpSocket { seq: 1, ack: 1, ..c };
    law_packet_roundtrip(c.local_addr, c.remote_addr, 1, 1, ACK, Seq::empty());
    let (client_after, client_reply) = client.after_reply(Some(s.packet(18, Seq::empty())));
    assert(client_reply == ReplyView::Established(Some(heard.packet(ACK, Seq::empty()))));
}

/// A datagram that one end sends is handed over at the other end, whole where there is room
/// for it, and the other end then expects the next one. An empty datagram is not handed over.
pub proof fn law_datagram_roundtrip(a: FtcpSocket, b: FtcpSocket, payload: Seq<u8>, max: nat)
    requires
        a.wf(),
        b.wf(),
        a.state == FtcpState::Established,
        b.state == FtcpState::Established,
    ensures
        ({
            let (after, step) = b.after_recv(a.packet(ACK, payload), max);
            &&& after.state == FtcpState::Established
            &&& after.ack == a.after_send(payload).seq
            &&& payload.len() > 0 ==> step is Deliver && step->Deliver_1 == cut(payload, max)
            &&& payload.len() == 0 ==> step is Skip
        }),
{
    lemma_flags();
    law_packet_roundtrip(a.local_addr, a.remote_addr, a.seq, a.ack, ACK, payload);
}

/// A reset ends an established connection, and refuses one that is being established.
pub proof fn law_reset_ends_the_connection(a: FtcpSocket, b: FtcpSocket, h: Handshake, max: nat)
    requires
        a.wf(),
    ensures
        ({
            let reset = tcp_packet(a.local_addr, a.remote_addr, a.seq, 0, RST, Seq::empty());
            &&& b.after_recv(reset, max) == (b, RecvView::Closed)
            &&& h.after_reply(Some(reset)) == (h, ReplyView::Refused)
        }),
{
    assert(4u8 & 4u8 != 0) by (bit_vector);
    law_packet_roundtrip(a.local_addr, a.remote_addr, a.seq, 0, RST, Seq::empty());
}

/// A handshake after `rounds` times sending its first packet and hearing nothing in time.
pub open spec fn unanswered(h: Handshake, rounds: nat) -> Handshake
    decreases rounds,
{
    if rounds == 0 {
        h
    } else {
        unanswered(h, (rounds - 1) as nat).after_opening().after_reply(None).0
    }
}

/// A handshake that hears nothing sends its first packet once and then `RETRIES` times more,
/// each time waiting for an answer, and only then gives up.
pub proof fn law_unanswered_handshake_retries(h: Handshake, rounds: nat)
    requires
        h.wf(),
        h.socket.state == FtcpState::Idle,
        h.attempts == 0,
        rounds <= 1 + RETRIES,
    ensures
        ({
            let now = unanswered(h, rounds);
            &&& now.wf()
            &&& now.attempts == rounds
            &&& if rounds < 1 + RETRIES {
                &&& now.stepped() == (
                    now.after_opening(),
                    ActionView::Send(now.socket.packet(opening_flags(h.role), Seq::empty())),
                )
                &&& now.after_opening().stepped() == (now.after_opening(), ActionView::Wait)
            } else {
                now.stepped() == (now, ActionView::GiveUp)
            }
        }),
    decreases rounds,
{
    if rounds > 0 {
        law_unanswered_handshake_retries(h, (rounds - 1) as nat);
    }
    assert(unanswered(h, rounds).role == h.role && unanswered(h, rounds).socket.state
        == FtcpState::Idle) by {
        lemma_unanswered_idle(h, rounds);
    }
}

/// A handshake that was not answered in time is idle, on the same side as before.
proof fn lemma_unanswered_idle(h: Handshake, rounds: nat)
    requires
        h.socket.state == FtcpState::Idle,
    ensures
        unanswered(h, rounds).role == h.role,
        unanswered(h, rounds).socket.state == FtcpState::Idle,
    decreases rounds,
{
    if rounds > 0 {
        lemma_unanswered_idle(h, (rounds - 1) as nat);
    }
}

/// After a wait that was too long, the first packet is sent again while retries are left.
pub proof fn law_timeouts_are_retried(h: Handshake)
    requires
        h.wf(),
        h.socket.state == waiting_state(h.role),
    ensures
        h.after_reply(None).1 == ReplyView::Pending,
        h.after_reply(None).0.stepped().1 is Send <==> h.attempts <= RETRIES,
        h.after_reply(None).0.stepped().1 is GiveUp <==> h.attempts == 1 + RETRIES,
{
}

/// How many steps a handshake can still take, at most.
pub open spec fn steps_left(h: Handshake) -> int {
    (RETRIES + 1 - h.attempts) * (MAX_STRAYS + 2) + if h.socket.state == FtcpState::Idle {
        0
    } else {
        MAX_STRAYS - h.strays + 1
    }
}

/// However the other end behaves, a handshake ends: with each packet that it sends, and each
/// wait that does not end it, fewer steps are left, and with none left it gives up.
pub proof fn law_handshake_ends(h: Handshake, reply: Option<Seq<u8>>)
    requires
        h.wf(),
    ensures
        steps_left(h) >= 0,
        match h.stepped() {
            (after, ActionView::Send(_)) => steps_left(after) < steps_left(h),
            (after, ActionView::Wait) => {
                let (later, r) = after.after_reply(reply);
                r == ReplyView::Pending ==> steps_left(later) < steps_left(h)
            },
            (_, ActionView::GiveUp) => true,
        },
        steps_left(h) == 0 ==> h.stepped().1 == ActionView::GiveUp,
{
}

/// Sequence numbers count in a circle of 32 bits: `seq_number` picks the one that is congruent.
pub proof fn law_sequence_numbers_count_in_a_circle(x: int)
    ensures
        (x - seq_number(x)) % 0x1_0000_0000 == 0,
        0 <= x < 0x1_0000_0000 ==> seq_number(x) == x,
        seq_number(x + 0x1_0000_0000) == seq_number(x),
{
}

/// A socket that has sent nothing starts at zero, and has heard what it is told.
pub proof fn law_new_sockets_start_at_zero(
    local_addr: SocketAddr,
    remote_addr: SocketAddr,
    ack: Option<u32>,
    state: FtcpState,
)
    ensures
        ({
            let s = FtcpSocket::spec_new(local_addr, remote_addr, ack, state);
            let heard = if ack is Some {
                ack->0
            } else {
                0
            };
            &&& s.local_addr == local_addr && s.remote_addr == remote_addr
            &&& s.seq == 0
            &&& s.ack == heard && s.last_ack == heard
            &&& s.state == state
        }),
{
}

/// A packet that a socket sends goes from its own end to the other one, with the current numbers.
/// After a datagram the next packet continues behind it, and everything heard so far counts as
/// acknowledged; nothing else changes.
pub proof fn law_sending_moves_the_sequence_number(a: FtcpSocket, flags: u8, payload: Seq<u8>)
    requires
        a.wf(),
    ensures
        parse_packet(a.packet(flags, payload)) matches Some(p) && {
            &&& p.src == a.local_addr.spec_ip() && p.fields.source == a.local_addr.spec_port()
            &&& p.dst == a.remote_addr.spec_ip() && p.fields.destination
                == a.remote_addr.spec_port()
            &&& p.fields.seq == a.seq
            &&& p.fields.ack == a.ack
            &&& p.fields.flags == flags
            &&& p.payload == payload
        },
        a.after_send(payload).seq as int == (a.seq + payload.len()) % 0x1_0000_0000,
        a.after_send(payload).last_ack == a.ack,
        a.after_send(payload).ack == a.ack,
        a.after_send(payload).state == a.state,
        a.after_send(payload).local_addr == a.local_addr,
        a.after_send(payload).remote_addr == a.remote_addr,
        a.acknowledged() == (FtcpSocket { last_ack: a.ack, ..a }),
{
    law_packet_roundtrip(a.local_addr, a.remote_addr, a.seq, a.ack, flags, payload);
}

/// What an established connection makes of any packet at all. One that cannot be read or that
/// resets ends it. Every other one moves the acknowledgement behind what is in it, whatever its
/// flags are. Once more than 128 MiB have come in since the last acknowledgement, a bare
/// acknowledgement is sent. A payload is handed over, of a longer one the first `max` bytes;
/// without a payload there is nothing to hand over. A connection that is not established has
/// ended.
#[verifier::rlimit(60)]
pub proof fn law_received_packets_are_acknowledged_and_handed_over(
    s: FtcpSocket,
    raw: Seq<u8>,
    max: nat,
)
    requires
        s.wf(),
    ensures
        ({
            let (after, step) = s.after_recv(raw, max);
            let p = parse_packet(raw);
            if s.state != FtcpState::Established || p is None || p->0.fields.flags & 4 != 0 {
                step is Closed && after == s
            } else {
                let data = p->0.payload;
                let unacked = (after.ack - s.last_ack) % 0x1_0000_0000;
                let reply = match step {
                    RecvView::Closed => None,
                    RecvView::Skip(reply) => reply,
                    RecvView::Deliver(reply, _) => reply,
                };
                &&& after.ack as int == (p->0.fields.seq + data.len()) % 0x1_0000_0000
                &&& after.seq == s.seq && after.state == s.state
                &&& after.local_addr == s.local_addr && after.remote_addr == s.remote_addr
                &&& reply is Some <==> unacked > 0x800_0000
                &&& reply is None ==> after.last_ack == s.last_ack
                &&& reply matches Some(packet) ==> {
                    &&& after.last_ack == after.ack
                    &&& parse_packet(packet) matches Some(q) && {
                        &&& q.src == s.local_addr.spec_ip() && q.dst == s.remote_addr.spec_ip()
                        &&& q.fields.source == s.local_addr.spec_port()
                        &&& q.fields.destination == s.remote_addr.spec_port()
                        &&& q.fields.seq == s.seq && q.fields.ack == after.ack
                        &&& q.fields.flags == 16
                        &&& q.payload.len() == 0
                    }
                }
                &&& step is Skip <==> data.len() == 0
                &&& step is Deliver <==> data.len() > 0
                &&& step matches RecvView::Deliver(_, given) ==> {
                    &&& given.len() == if data.len() <= max {
                        data.len()
                    } else {
                        max
                    }
                    &&& given.is_prefix_of(data)
                }
            }
        }),
{
    if let Some(p) = parse_packet(raw) {
        let ack = seq_number(p.fields.seq + p.payload.len());
        law_packet_roundtrip(s.local_addr, s.remote_addr, s.seq, ack, ACK, Seq::empty());
    }
}

/// The first packet of a handshake. It is sent while none waits for an answer and it has been
/// sent at most six times. It asks for the connection, or agrees to it, with sequence number
/// zero and what has been heard so far. While an answer is awaited nothing is sent, and after
/// five packets that do not count the handshake gives up.
#[verifier::rlimit(60)]
pub proof fn law_handshakes_open_and_wait(h: Handshake)
    requires
        h.wf(),
    ensures
        ({
            let (after, action) = h.stepped();
            if h.socket.state == FtcpState::Idle {
                if h.attempts <= 6 {
                    &&& action matches ActionView::Send(packet) && (parse_packet(packet) matches
                        Some(p) && {
                        &&& p.src == h.socket.local_addr.spec_ip()
                        &&& p.dst == h.socket.remote_addr.spec_ip()
                        &&& p.fields.source == h.socket.local_addr.spec_port()
                        &&& p.fields.destination == h.socket.remote_addr.spec_port()
                        &&& p.fields.seq == 0 && p.fields.ack == h.socket.ack
                        &&& p.fields.flags == if h.role == Role::Client {
                            2
                        } else {
                            2 + 16
                        }
                        &&& p.payload.len() == 0
                    })
                    &&& after.attempts == h.attempts + 1 && after.strays == 0
                    &&& after.role == h.role
                    &&& after.socket.state == if h.role == Role::Client {
                        FtcpState::SynSent
                    } else {
                        FtcpState::SynReceived
                    }
                    &&& after.socket == (FtcpSocket {
                        state: after.socket.state,
                        last_ack: h.socket.ack,
                        ..h.socket
                    })
                } else {
                    action is GiveUp && after == h
                }
            } else {
                &&& after == h
                &&& h.strays < 5 ==> action is Wait
                &&& h.strays >= 5 ==> action is GiveUp
            }
        }),
{
    let s = h.socket;
    let flags = opening_flags(h.role);
    law_packet_roundtrip(s.local_addr, s.remote_addr, s.seq, s.ack, flags, Seq::empty());
}

/// What a handshake makes of any answer at all. Without one in time it opens again. A reset
/// refuses the connection. The client is satisfied by a packet that agrees and acknowledges
/// its own, whatever sequence number that has: it acknowledges it, and the connection stands.
/// The server is satisfied by a bare acknowledgement of its own packet. Anything else, and
/// what cannot be read, is waited out.
#[verifier::rlimit(60)]
pub proof fn law_answers_complete_or_refuse_the_handshake(h: Handshake, reply: Option<Seq<u8>>)
    requires
        h.wf(),
        h.socket.state != FtcpState::Idle,
    ensures
        ({
            let (after, r) = h.after_reply(reply);
            let stray = Handshake {
                strays: if h.strays < 5 {
                    (h.strays + 1) as usize
                } else {
                    h.strays
                },
                ..h
            };
            let p = if reply is Some {
                parse_packet(reply->0)
            } else {
                None
            };
            if reply is None {
                &&& r == ReplyView::Pending
                &&& after == (Handshake {
                    socket: FtcpSocket { state: FtcpState::Idle, ..h.socket },
                    ..h
                })
            } else if p is None {
                r == ReplyView::Pending && after == stray
            } else if p->0.fields.flags & 4 != 0 {
                r == ReplyView::Refused && after == h
            } else if h.role == Role::Client && p->0.fields.flags == 2 + 16 && p->0.fields.ack == 1 {
                &&& after.socket.state == FtcpState::Established
                &&& after.socket.seq == 1
                &&& after.socket.ack as int == (p->0.fields.seq + 1) % 0x1_0000_0000
                &&& after.socket.last_ack == after.socket.ack
                &&& after.socket.local_addr == h.socket.local_addr
                &&& after.socket.remote_addr == h.socket.remote_addr
                &&& r matches ReplyView::Established(Some(packet)) && (parse_packet(packet) matches
                    Some(q) && {
                    &&& q.src == h.socket.local_addr.spec_ip()
                    &&& q.dst == h.socket.remote_addr.spec_ip()
                    &&& q.fields.source == h.socket.local_addr.spec_port()
                    &&& q.fields.destination == h.socket.remote_addr.spec_port()
                    &&& q.fields.seq == 1 && q.fields.ack == after.socket.ack
                    &&& q.fields.flags == 16
                    &&& q.payload.len() == 0
                })
            } else if h.role == Role::Server && p->0.fields.flags == 16 && p->0.fields.ack == 1 {
                &&& r == ReplyView::Established(None)
                &&& after == (Handshake {
                    socket: FtcpSocket { seq: 1, state: FtcpState::Established, ..h.socket },
                    ..h
                })
            } else {
                r == ReplyView::Pending && after == stray
            }
        }),
{
    if reply is Some {
        if let Some(p) = parse_packet(reply->0) {
            let s = h.socket;
            let ack = seq_number(p.fields.seq + 1);
            law_packet_roundtrip(s.local_addr, s.remote_addr, 1, ack, ACK, Seq::empty());
        }
    }
}

/// What is seen of what came of a packet, and of what a handshake does, is all of it.
pub proof fn law_steps_are_seen_whole(
    step: RecvStep,
    action: HandshakeAction,
    reply: HandshakeReply,
)
    ensures
        step is Closed <==> step@ is Closed,
        step matches RecvStep::Skip(packet) ==> (step@ matches RecvView::Skip(seen) && (packet is None
            <==> seen is None) && (packet is Some ==> seen == Some(packet->0@))),
        step matches RecvStep::Deliver(packet, data) ==> (step@ matches RecvView::Deliver(seen, d)
            && d == data@ && (packet is None <==> seen is None) && (packet is Some ==> seen == Some(
            packet->0@,
        ))),
        action matches HandshakeAction::Send(packet) ==> action@ == ActionView::Send(packet@),
        action is Wait <==> action@ is Wait,
        action is GiveUp <==> action@ is GiveUp,
        reply is Pending <==> reply@ is Pending,
        reply is Refused <==> reply@ is Refused,
        reply matches HandshakeReply::Established(packet) ==> (reply@ matches
            ReplyView::Established(seen) && (packet is None <==> seen is None) && (packet is Some
            ==> seen == Some(packet->0@))),
{
}

} // verus!
