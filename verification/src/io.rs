//! Link messages over unreliable datagrams.
//!
//! On a link a data message is two packets: a header with its sequence number, and the
//! payload. A datagram link may lose, duplicate or reorder datagrams, so both go into one
//! datagram, and come out as two packets again.

use crate::error::TransportError;
use crate::udp::frame::{begins_with, legacy_magic};
use crate::wire::{
    be_bytes, be_value, copy_range, has_at, lemma_be_bytes_len, lemma_be_bytes_small,
    lemma_be_roundtrip, lemma_be_roundtrip_bytes, lemma_be_value_bound, lemma_pow256_sizes, optional_bytes, push_all, push_u32, read_u32,
};
use vstd::prelude::*;

verus! {

/// Size of the header of a control frame.
pub const DATAGRAM_CONTROL_HEADER_LEN: usize = 5;

/// Size of the header of a data frame.
pub const DATAGRAM_DATA_HEADER_LEN: usize = 9;

/// The number of a data message.
#[derive(Debug, Clone, Copy, PartialEq, Eq, Hash, Structural)]
pub struct LinkSeq(pub u32);

impl From<u32> for LinkSeq {
    fn from(seq: u32) -> (r: LinkSeq) {
        LinkSeq(seq)
    }
}

impl vstd::std_specs::convert::FromSpecImpl<u32> for LinkSeq {
    open spec fn obeys_from_spec() -> bool {
        true
    }

    open spec fn from_spec(seq: u32) -> LinkSeq {
        LinkSeq(seq)
    }
}

/// What begins every link frame: "AGD1".
pub open spec fn datagram_magic() -> Seq<u8> {
    seq![65u8, 71, 68, 49]
}

/// A control frame.
pub open spec fn control_bytes(msg: Seq<u8>) -> Seq<u8> {
    datagram_magic() + seq![0u8] + msg
}

/// A data frame.
pub open spec fn data_bytes(seq: LinkSeq, payload: Seq<u8>) -> Seq<u8> {
    datagram_magic() + seq![1u8] + be_bytes(seq.0 as nat, 4) + payload
}

/// What is in a link frame.
pub enum FrameView {
    /// A control message.
    Control(Seq<u8>),
    /// A data message.
    Data(LinkSeq, Seq<u8>),
}

/// What is in a link frame.
#[derive(Debug)]
pub enum DecodedDatagram {
    /// A control message.
    Control(Vec<u8>),
    /// A data message.
    Data {
        /// Its number.
        seq: LinkSeq,
        /// Its payload.
        payload: Vec<u8>,
    },
}

impl View for DecodedDatagram {
    type V = FrameView;

    open spec fn view(&self) -> FrameView {
        match *self {
            DecodedDatagram::Control(msg) => FrameView::Control(msg@),
            DecodedDatagram::Data { seq, payload } => FrameView::Data(seq, payload@),
        }
    }
}

/// Reads a link frame.
pub open spec fn frame_of(datagram: Seq<u8>) -> Result<FrameView, TransportError> {
    if datagram.len() < DATAGRAM_CONTROL_HEADER_LEN || datagram.take(4) != datagram_magic() {
        Err(TransportError::InvalidFrame)
    } else if datagram[4] == 0 {
        Ok(FrameView::Control(datagram.skip(DATAGRAM_CONTROL_HEADER_LEN as int)))
    } else if datagram[4] == 1 {
        if datagram.len() < DATAGRAM_DATA_HEADER_LEN {
            Err(TransportError::FrameTooShort)
        } else {
            Ok(
                FrameView::Data(
                    LinkSeq(be_value(datagram.subrange(5, 9)) as u32),
                    datagram.skip(DATAGRAM_DATA_HEADER_LEN as int),
                ),
            )
        }
    } else {
        Err(TransportError::InvalidFrameKind(datagram[4]))
    }
}

/// Of which kind a packet is, where it is a message.
#[derive(Debug, Clone, Copy, PartialEq, Eq, Structural)]
pub enum MsgKind {
    /// The header of a data message with this number.
    Data(LinkSeq),
    /// A message of its own.
    Control,
}

/// What the sending side does with a packet: the number of the data message whose payload comes
/// next, and the datagram that the packet completes. `pending` is the number before it.
pub open spec fn packet_sent(pending: Option<LinkSeq>, item: Seq<u8>, kind: MsgKind) -> (
    Option<LinkSeq>,
    Option<Seq<u8>>,
) {
    match pending {
        Some(seq) => (None, Some(data_bytes(seq, item))),
        None => match kind {
            MsgKind::Data(seq) => (Some(seq), None),
            MsgKind::Control => (None, Some(control_bytes(item))),
        },
    }
}

/// The sending side.
#[derive(Debug)]
pub struct DatagramTx {
    /// The number of the data message whose payload comes next.
    pub pending_data_seq: Option<LinkSeq>,
}

impl DatagramTx {
    /// Nothing has been sent.
    pub fn new() -> (tx: DatagramTx)
        ensures
            tx.pending_data_seq is None,
    {
        DatagramTx { pending_data_seq: None }
    }

    /// Writes a control frame.
    pub fn encode_control(msg: &[u8]) -> (datagram: Vec<u8>)
        ensures
            datagram@ == control_bytes(msg@),
    {
        let header: [u8; 5] = [65, 71, 68, 49, 0];
        let mut datagram: Vec<u8> = Vec::new();
        push_all(&mut datagram, &header);
        push_all(&mut datagram, msg);
        assert(datagram@ =~= control_bytes(msg@));
        datagram
    }

    /// Writes a data frame.
    pub fn encode_data(seq: LinkSeq, payload: &[u8]) -> (datagram: Vec<u8>)
        ensures
            datagram@ == data_bytes(seq, payload@),
    {
        let header: [u8; 5] = [65, 71, 68, 49, 1];
        let mut datagram: Vec<u8> = Vec::new();
        push_all(&mut datagram, &header);
        push_u32(&mut datagram, seq.0);
        push_all(&mut datagram, payload);
        assert(datagram@ =~= data_bytes(seq, payload@));
        datagram
    }

    /// Whether the next packet is the payload of a data message, and not a message itself.
    pub fn expects_payload(&self) -> (b: bool)
        ensures
            b == self.pending_data_seq is Some,
    {
        self.pending_data_seq.is_some()
    }

    /// Takes a packet. `kind` is of which kind it is if it is a message; where a payload is
    /// expected it does not count. Returns the datagram to send, if the packet completes one.
    pub fn start_send(&mut self, item: &[u8], kind: MsgKind) -> (r: Option<Vec<u8>>)
        ensures
            match old(self).pending_data_seq {
                Some(seq) => final(self).pending_data_seq is None && optional_bytes(r) == Some(
                    data_bytes(seq, item@),
                ),
                None => match kind {
                    MsgKind::Data(seq) => final(self).pending_data_seq == Some(seq) && r is None,
                    MsgKind::Control => final(self).pending_data_seq is None && optional_bytes(r)
                        == Some(control_bytes(item@)),
                },
            },
            (final(self).pending_data_seq, optional_bytes(r)) == packet_sent(
                old(self).pending_data_seq,
                item@,
                kind,
            ),
    {
        match self.pending_data_seq {
            Some(seq) => {
                self.pending_data_seq = None;
                Some(DatagramTx::encode_data(seq, item))
            },
            None => match kind {
                MsgKind::Data(seq) => {
                    self.pending_data_seq = Some(seq);
                    None
                },
                MsgKind::Control => Some(DatagramTx::encode_control(item)),
            },
        }
    }

    /// Checks that no message is incomplete, before flushing or closing.
    pub fn check_complete(&self) -> (r: Result<(), TransportError>)
        ensures
            match r {
                Ok(()) => self.pending_data_seq is None,
                Err(e) => self.pending_data_seq is Some && e == TransportError::MissingPayload,
            },
    {
        if self.pending_data_seq.is_some() {
            Err(TransportError::MissingPayload)
        } else {
            Ok(())
        }
    }
}

/// A packet that comes out of a datagram.
#[derive(Debug)]
pub enum RxPacket {
    /// A message.
    Message(Vec<u8>),
    /// The header of the data message with this number; its payload comes next.
    DataHeader(LinkSeq),
}

/// A packet that comes out of a datagram.
pub enum RxView {
    /// A message.
    Message(Seq<u8>),
    /// The header of the data message with this number; its payload comes next.
    DataHeader(LinkSeq),
}

/// What comes out of a datagram: the next packet, and the payload that comes after it, if one
/// does.
pub open spec fn datagram_taken(datagram: Seq<u8>) -> (
    Option<Seq<u8>>,
    Result<RxView, TransportError>,
) {
    match frame_of(datagram) {
        Ok(FrameView::Control(msg)) => (None, Ok(RxView::Message(msg))),
        Ok(FrameView::Data(seq, payload)) => (Some(payload), Ok(RxView::DataHeader(seq))),
        Err(e) => (None, Err(e)),
    }
}

/// The receiving side.
#[derive(Debug)]
pub struct DatagramRx {
    /// The payload that comes next.
    pub pending_payload: Option<Vec<u8>>,
}

impl DatagramRx {
    /// Nothing has been received.
    pub fn new() -> (rx: DatagramRx)
        ensures
            rx.pending_payload is None,
    {
        DatagramRx { pending_payload: None }
    }

    /// Reads a link frame.
    pub fn decode(datagram: &[u8]) -> (r: Result<DecodedDatagram, TransportError>)
        ensures
            match r {
                Ok(d) => frame_of(datagram@) == Ok::<FrameView, TransportError>(d@),
                Err(e) => frame_of(datagram@) == Err::<FrameView, TransportError>(e),
            },
    {
        let magic: [u8; 4] = [65, 71, 68, 49];
        proof {
            assert(magic@ =~= datagram_magic());
            if datagram@.len() >= 4 {
                assert(datagram@.subrange(0, 4) =~= datagram@.take(4));
            }
        }
        if datagram.len() < DATAGRAM_CONTROL_HEADER_LEN || !has_at(datagram, 0, &magic) {
            return Err(TransportError::InvalidFrame);
        }
        let kind: u8 = datagram[4];
        if kind == 0 {
            let msg = copy_range(datagram, DATAGRAM_CONTROL_HEADER_LEN, datagram.len());
            assert(msg@ =~= datagram@.skip(DATAGRAM_CONTROL_HEADER_LEN as int));
            Ok(DecodedDatagram::Control(msg))
        } else if kind == 1 {
            if datagram.len() < DATAGRAM_DATA_HEADER_LEN {
                return Err(TransportError::FrameTooShort);
            }
            let seq = LinkSeq(read_u32(datagram, 5));
            let payload = copy_range(datagram, DATAGRAM_DATA_HEADER_LEN, datagram.len());
            assert(payload@ =~= datagram@.skip(DATAGRAM_DATA_HEADER_LEN as int));
            Ok(DecodedDatagram::Data { seq, payload })
        } else {
            Err(TransportError::InvalidFrameKind(kind))
        }
    }

    /// Takes the payload that comes next, if one does.
    pub fn take_payload(&mut self) -> (r: Option<Vec<u8>>)
        ensures
            final(self).pending_payload is None,
            r == old(self).pending_payload,
    {
        let mut r: Option<Vec<u8>> = None;
        std::mem::swap(&mut r, &mut self.pending_payload);
        r
    }

    /// Takes a datagram, when no payload is due. Returns the next packet.
    pub fn on_datagram(&mut self, datagram: &[u8]) -> (r: Result<RxPacket, TransportError>)
        requires
            old(self).pending_payload is None,
        ensures
            match frame_of(datagram@) {
                Ok(FrameView::Control(msg)) => final(self).pending_payload is None && (r matches Ok(
                    RxPacket::Message(m),
                ) && m@ == msg),
                Ok(FrameView::Data(seq, payload)) => optional_bytes(final(self).pending_payload)
                    == Some(payload) && (r matches Ok(RxPacket::DataHeader(s)) && s == seq),
                Err(e) => final(self).pending_payload is None && (r matches Err(x) && x == e),
            },
            optional_bytes(final(self).pending_payload) == datagram_taken(datagram@).0,
            match r {
                Ok(RxPacket::Message(msg)) => datagram_taken(datagram@).1 == Ok::<
                    RxView,
                    TransportError,
                >(RxView::Message(msg@)),
                Ok(RxPacket::DataHeader(seq)) => datagram_taken(datagram@).1 == Ok::<
                    RxView,
                    TransportError,
                >(RxView::DataHeader(seq)),
                Err(e) => datagram_taken(datagram@).1 == Err::<RxView, TransportError>(e),
            },
    {
        match DatagramRx::decode(datagram) {
            Ok(DecodedDatagram::Control(msg)) => Ok(RxPacket::Message(msg)),
            Ok(DecodedDatagram::Data { seq, payload }) => {
                self.pending_payload = Some(payload);
                Ok(RxPacket::DataHeader(seq))
            },
            Err(e) => Err(e),
        }
    }
}

/// A control message is read as it was written.
pub proof fn law_control_roundtrip(msg: Seq<u8>)
    ensures
        frame_of(control_bytes(msg)) == Ok::<FrameView, TransportError>(FrameView::Control(msg)),
{
    let datagram = control_bytes(msg);
    assert(datagram.take(4) =~= datagram_magic());
    assert(datagram.skip(5) =~= msg);
}

/// A data message is read as it was written: its number and its payload.
pub proof fn law_data_roundtrip(seq: LinkSeq, payload: Seq<u8>)
    ensures
        frame_of(data_bytes(seq, payload)) == Ok::<FrameView, TransportError>(
            FrameView::Data(seq, payload),
        ),
{
    let datagram = data_bytes(seq, payload);
    lemma_be_bytes_len(seq.0 as nat, 4);
    lemma_pow256_sizes();
    lemma_be_roundtrip(seq.0 as nat, 4);
    assert(datagram.take(4) =~= datagram_magic());
    assert(datagram.subrange(5, 9) =~= be_bytes(seq.0 as nat, 4));
    assert(datagram.skip(9) =~= payload);
}

/// Every link frame can be sent over UDP without a session.
pub proof fn law_frames_need_no_session(msg: Seq<u8>, seq: LinkSeq, payload: Seq<u8>)
    ensures
        begins_with(control_bytes(msg), legacy_magic()),
        begins_with(data_bytes(seq, payload), legacy_magic()),
{
    lemma_be_bytes_len(seq.0 as nat, 4);
    assert(control_bytes(msg).take(4) =~= legacy_magic());
    assert(data_bytes(seq, payload).take(4) =~= legacy_magic());
}

/// What stands where in a link frame: "AGD1", then zero and a control message, or one, the
/// number of a data message in four bytes, and its payload.
pub proof fn law_frame_layout(msg: Seq<u8>, seq: LinkSeq, payload: Seq<u8>)
    ensures
        control_bytes(msg) == seq![65u8, 71, 68, 49, 0] + msg,
        ({
            let d = data_bytes(seq, payload);
            &&& d.len() == 9 + payload.len()
            &&& d.take(5) == seq![65u8, 71, 68, 49, 1]
            &&& d[5] * 0x100_0000 + d[6] * 0x1_0000 + d[7] * 0x100 + d[8] == seq.0
            &&& d.skip(9) == payload
        }),
{
    lemma_be_bytes_small(seq.0 as nat);
    assert(control_bytes(msg) =~= seq![65u8, 71, 68, 49, 0] + msg);
    assert(data_bytes(seq, payload).take(5) =~= seq![65u8, 71, 68, 49, 1]);
    assert(data_bytes(seq, payload).skip(9) =~= payload);
}

/// Nothing is read from a link frame but what was written into it, and what cannot be read is
/// refused for its reason: it is too short for a frame or not begun by "AGD1", or too short for
/// a data message, or of no known kind.
#[verifier::rlimit(60)]
pub proof fn law_only_link_frames_are_read(d: Seq<u8>)
    ensures
        ({
            let begun = d.len() >= 5 && d[0] == 65 && d[1] == 71 && d[2] == 68 && d[3] == 49;
            match frame_of(d) {
                Ok(FrameView::Control(msg)) => d == control_bytes(msg),
                Ok(FrameView::Data(seq, payload)) => d == data_bytes(seq, payload),
                Err(e) => if !begun {
                    e == TransportError::InvalidFrame
                } else if d[4] == 1 {
                    d.len() < 9 && e == TransportError::FrameTooShort
                } else {
                    d[4] > 1 && e == TransportError::InvalidFrameKind(d[4])
                },
            }
        }),
{
    if d.len() >= 5 {
        let head = d.take(4);
        let magic = datagram_magic();
        assert(head[0] == d[0] && head[1] == d[1] && head[2] == d[2] && head[3] == d[3]);
        if head == magic {
            assert(magic[0] == 65 && magic[1] == 71 && magic[2] == 68 && magic[3] == 49);
        }
        if d[0] == 65 && d[1] == 71 && d[2] == 68 && d[3] == 49 {
            assert(head =~= magic);
        }
        if head == magic && d[4] == 0 {
            assert(d =~= control_bytes(d.skip(5)));
        }
        if head == magic && d[4] == 1 && d.len() >= 9 {
            let number = d.subrange(5, 9);
            lemma_pow256_sizes();
            lemma_be_value_bound(number);
            lemma_be_roundtrip_bytes(number);
            assert(d =~= data_bytes(LinkSeq(be_value(number) as u32), d.skip(9)));
        }
    }
}

/// A control message goes out at once. Of a data message the header goes out together with the
/// payload that follows it, in one datagram, from which the number and the payload are read;
/// of which kind the payload might be does not matter. After either nothing is pending.
pub proof fn law_messages_go_out_in_one_datagram(
    seq: LinkSeq,
    header: Seq<u8>,
    payload: Seq<u8>,
    kind: MsgKind,
)
    ensures
        ({
            let (pending, first) = packet_sent(None, header, MsgKind::Data(seq));
            let (after, second) = packet_sent(pending, payload, kind);
            &&& first is None
            &&& pending is Some
            &&& after is None
            &&& second is Some && frame_of(second->0) == Ok::<FrameView, TransportError>(
                FrameView::Data(seq, payload),
            )
        }),
        ({
            let (after, sent) = packet_sent(None, payload, MsgKind::Control);
            &&& after is None
            &&& sent is Some && frame_of(sent->0) == Ok::<FrameView, TransportError>(
                FrameView::Control(payload),
            )
        }),
{
    law_data_roundtrip(seq, payload);
    law_control_roundtrip(payload);
}

/// What is seen of a link frame that was read is all of it.
pub proof fn law_frames_are_seen_whole(d: DecodedDatagram)
    ensures
        d matches DecodedDatagram::Control(msg) ==> d@ == FrameView::Control(msg@),
        d matches DecodedDatagram::Data { seq, payload } ==> d@ == FrameView::Data(seq, payload@),
{
}

/// What one side sends the other side takes, packet by packet: of a data message first the header
/// with its number, then the payload; of a control message the message, and no payload.
pub proof fn law_messages_come_out_as_they_went_in(
    seq: LinkSeq,
    header: Seq<u8>,
    payload: Seq<u8>,
    kind: MsgKind,
)
    ensures
        ({
            let pending = packet_sent(None, header, MsgKind::Data(seq)).0;
            let datagram = packet_sent(pending, payload, kind).1;
            datagram is Some && datagram_taken(datagram->0) == (
                Some(payload),
                Ok::<RxView, TransportError>(RxView::DataHeader(seq)),
            )
        }),
        ({
            let datagram = packet_sent(None, payload, MsgKind::Control).1;
            datagram is Some && datagram_taken(datagram->0) == (
                None::<Seq<u8>>,
                Ok::<RxView, TransportError>(RxView::Message(payload)),
            )
        }),
{
    law_data_roundtrip(seq, payload);
    law_control_roundtrip(payload);
}

/// From a datagram that is no link frame nothing comes out, and the reason is told.
pub proof fn law_other_datagrams_are_refused(datagram: Seq<u8>)
    ensures
        datagram_taken(datagram).1 is Err <==> frame_of(datagram) is Err,
        frame_of(datagram) matches Err(e) ==> datagram_taken(datagram).0 is None && datagram_taken(
            datagram,
        ).1 == Err::<RxView, TransportError>(e),
{
}

} // verus!
