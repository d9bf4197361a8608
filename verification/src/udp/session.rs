//! What the tasks of a UDP session do.

use crate::udp::frame::{
    decode_udp_datagram, decoded, encode_udp_frame, encode_udp_probe, frame_bytes,
    law_frame_roundtrip, law_only_what_was_written_is_read, law_probe_roundtrip, probe_bytes,
    DatagramView,
};
use crate::wire::optional_bytes;
use rand::rngs::{SmallRng, SysRng};
use rand::{RngExt, SeedableRng};
use vstd::prelude::*;

verus! {

/// How long a writer may be silent before it sends a probe, in nanoseconds.
pub const UDP_KEEPALIVE_INTERVAL: u64 = 15_000_000_000;

/// What happened to a writer.
#[derive(Debug)]
pub enum WriterEvent {
    /// A datagram is to be sent.
    Datagram(Vec<u8>),
    /// There will be no more datagrams.
    Closed,
    /// Nothing, for as long as a writer may be silent.
    Silence,
}

/// What a writer does.
#[derive(Debug)]
pub enum WriterAction {
    /// Send this.
    Send(Vec<u8>),
    /// End.
    Stop,
}

/// What a writer does after sending failed.
#[derive(Debug, Clone, Copy, PartialEq, Eq, Structural)]
pub enum SendFailure {
    /// Drop the datagram and go on.
    Drop,
    /// Report the error to the reader and end.
    Fail,
}

/// The own end of a UDP session.
#[derive(Debug, Clone, Copy, PartialEq, Eq, Structural)]
pub struct UdpSession {
    /// The number of the session, if it has one.
    pub session_id: Option<u128>,
    /// Whether this end has set the session up.
    pub connected: bool,
}

/// `SmallRng::try_from_rng` over `SysRng`, then `RngExt::random`: any number, by chance, or
/// none where the system has no random numbers.
#[verifier::external_body]
fn random_session_id() -> (id: Option<u128>) {
    let mut rng = SmallRng::try_from_rng(&mut SysRng).ok()?;
    Some(rng.random())
}

impl UdpSession {
    /// A session that this end sets up, with a number by chance. There is none where the
    /// system has no random numbers.
    pub fn connect() -> (s: Option<UdpSession>)
        ensures
            s matches Some(s) ==> s.connected && s.session_id is Some,
    {
        UdpSession::connect_drawn(random_session_id())
    }

    /// A session that this end sets up, with the number that was drawn, if one was.
    pub fn connect_drawn(id: Option<u128>) -> (s: Option<UdpSession>)
        ensures
            s == match id {
                Some(id) => Some(UdpSession { session_id: Some(id), connected: true }),
                None => None,
            },
    {
        match id {
            Some(id) => Some(UdpSession::connect_with(id)),
            None => None,
        }
    }

    /// A session that this end sets up, with the given number.
    pub fn connect_with(id: u128) -> (s: UdpSession)
        ensures
            s == (UdpSession { session_id: Some(id), connected: true }),
    {
        UdpSession { session_id: Some(id), connected: true }
    }

    /// A session that the other end has set up.
    pub fn accept(session_id: Option<u128>) -> (s: UdpSession)
        ensures
            s == (UdpSession { session_id, connected: false }),
    {
        UdpSession { session_id, connected: false }
    }

    /// What a writer sends first, if anything.
    pub open spec fn announces(self) -> Option<Seq<u8>> {
        if self.connected {
            Some(probe_bytes(self.session_id))
        } else {
            None
        }
    }

    /// What a writer sends when something happens to it; nothing once there will be no more
    /// datagrams.
    pub open spec fn sends(self, event: WriterEvent) -> Option<Seq<u8>> {
        match event {
            WriterEvent::Datagram(payload) => Some(frame_bytes(self.session_id, payload@)),
            WriterEvent::Closed => None,
            WriterEvent::Silence => Some(probe_bytes(self.session_id)),
        }
    }

    /// What a writer sends first: the end that sets a session up announces it.
    pub fn opening(&self) -> (r: Option<Vec<u8>>)
        ensures
            match r {
                Some(probe) => self.connected && probe@ == probe_bytes(self.session_id),
                None => !self.connected,
            },
            optional_bytes(r) == self.announces(),
    {
        if self.connected {
            Some(encode_udp_probe(self.session_id))
        } else {
            None
        }
    }

    /// What a writer does next: it frames datagrams, and breaks the silence with a probe.
    pub fn write(&self, event: WriterEvent) -> (action: WriterAction)
        ensures
            match event {
                WriterEvent::Datagram(payload) => action matches WriterAction::Send(datagram)
                    && datagram@ == frame_bytes(self.session_id, payload@),
                WriterEvent::Closed => action is Stop,
                WriterEvent::Silence => action matches WriterAction::Send(datagram) && datagram@
                    == probe_bytes(self.session_id),
            },
            match action {
                WriterAction::Send(datagram) => self.sends(event) == Some(datagram@),
                WriterAction::Stop => self.sends(event) is None,
            },
    {
        match event {
            WriterEvent::Datagram(payload) => WriterAction::Send(
                encode_udp_frame(self.session_id, payload),
            ),
            WriterEvent::Closed => WriterAction::Stop,
            WriterEvent::Silence => WriterAction::Send(encode_udp_probe(self.session_id)),
        }
    }

    /// What a writer does after sending failed.
    pub fn send_failed(&self, transient: bool) -> (r: SendFailure)
        ensures
            r == if transient {
                SendFailure::Drop
            } else {
                SendFailure::Fail
            },
    {
        if transient {
            SendFailure::Drop
        } else {
            SendFailure::Fail
        }
    }

    /// What the reader of a connected socket takes from a datagram: the payload, if it belongs
    /// to the session.
    pub open spec fn accepts(self, datagram: Seq<u8>) -> Option<Seq<u8>> {
        match decoded(datagram) {
            Some(d) => if d.session_id is Some && d.session_id == self.session_id {
                d.payload
            } else {
                None
            },
            None => None,
        }
    }

    /// Takes the payload from a datagram of the session. Everything else is dropped.
    pub fn read(&self, datagram: &[u8]) -> (r: Option<Vec<u8>>)
        ensures
            match r {
                Some(payload) => self.accepts(datagram@) == Some(payload@),
                None => self.accepts(datagram@) is None,
            },
    {
        match decode_udp_datagram(datagram) {
            Some(d) => match (d.session_id, self.session_id) {
                (Some(a), Some(b)) => if a == b {
                    d.payload
                } else {
                    None
                },
                _ => None,
            },
            None => None,
        }
    }
}

/// The reader of a session takes exactly the payloads of its own session, as they were sent:
/// those of others are dropped, and so are probes.
pub proof fn law_sessions_do_not_mix(s: UdpSession, other: u128, payload: Seq<u8>)
    requires
        s.session_id is Some,
    ensures
        s.accepts(frame_bytes(s.session_id, payload)) == Some(payload),
        s.session_id != Some(other) ==> s.accepts(frame_bytes(Some(other), payload)) is None,
        s.accepts(probe_bytes(s.session_id)) is None,
{
    law_frame_roundtrip(s.session_id->0, payload);
    law_frame_roundtrip(other, payload);
    law_probe_roundtrip(s.session_id);
}

/// The reader of a session takes a payload from a datagram exactly if the datagram is the frame
/// of its session with that payload. A session without a number takes nothing.
pub proof fn law_readers_take_the_frames_of_their_session(
    s: UdpSession,
    datagram: Seq<u8>,
    payload: Seq<u8>,
)
    ensures
        s.accepts(datagram) == Some(payload) <==> s.session_id is Some && datagram == frame_bytes(
            s.session_id,
            payload,
        ),
        s.session_id is None ==> s.accepts(datagram) is None,
{
    law_only_what_was_written_is_read(datagram);
    if s.session_id is Some {
        law_frame_roundtrip(s.session_id->0, payload);
    }
}

/// The two ends of a session understand each other. The end that sets it up announces it by a
/// probe, the other one does not. A datagram that one end is given comes out of the reader at
/// the other end as it was. Silence is broken after 15 seconds by a probe of the session, from
/// which no reader takes anything. After the last datagram nothing is sent.
pub proof fn law_writers_are_understood(a: UdpSession, b: UdpSession, event: WriterEvent)
    requires
        a.session_id is Some,
        b.session_id == a.session_id,
    ensures
        UDP_KEEPALIVE_INTERVAL == 15_000_000_000,
        a.announces() is Some <==> a.connected,
        a.connected ==> decoded(a.announces()->0) == Some(
            DatagramView { session_id: a.session_id, payload: None },
        ),
        match event {
            WriterEvent::Datagram(payload) => a.sends(event) is Some && b.accepts(a.sends(event)->0)
                == Some(payload@),
            WriterEvent::Closed => a.sends(event) is None,
            WriterEvent::Silence => a.sends(event) is Some && decoded(a.sends(event)->0) == Some(
                DatagramView { session_id: a.session_id, payload: None },
            ) && b.accepts(a.sends(event)->0) is None,
        },
{
    law_probe_roundtrip(a.session_id);
    if let WriterEvent::Datagram(payload) = event {
        law_frame_roundtrip(a.session_id->0, payload@);
    }
}

} // verus!
