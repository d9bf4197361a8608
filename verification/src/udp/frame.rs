//! Datagrams of UDP sessions.
//!
//! A session has a number of 16 bytes. Its datagrams are probes, which only say that it
//! exists, and frames. Without a session there are short probes, and datagrams that carry a
//! link frame as it is.

use crate::wire::{
    be_bytes, be_value, copy_bytes, copy_range, has_at, law_numbers_are_big_endian,
    lemma_be_bytes_len, lemma_be_roundtrip, lemma_be_roundtrip_bytes, lemma_be_value_bound,
    lemma_pow256_sizes, optional_bytes, push_all, push_u128, read_u128, same_bytes,
};
use vstd::arithmetic::power::pow;
use vstd::prelude::*;

verus! {

/// Size of the header of a session.
pub const UDP_SESSION_HEADER_LEN: usize = 20;

/// What a probe begins with: "AGP1".
pub open spec fn probe_magic() -> Seq<u8> {
    seq![65u8, 71, 80, 49]
}

/// What a frame begins with: "AGU1".
pub open spec fn frame_magic() -> Seq<u8> {
    seq![65u8, 71, 85, 49]
}

/// What a link frame without a session begins with: "AGD1".
pub open spec fn legacy_magic() -> Seq<u8> {
    seq![65u8, 71, 68, 49]
}

/// A probe.
pub open spec fn probe_bytes(session_id: Option<u128>) -> Seq<u8> {
    match session_id {
        Some(id) => probe_magic() + be_bytes(id as nat, 16),
        None => probe_magic(),
    }
}

/// A frame.
pub open spec fn frame_bytes(session_id: Option<u128>, payload: Seq<u8>) -> Seq<u8> {
    match session_id {
        Some(id) => frame_magic() + be_bytes(id as nat, 16) + payload,
        None => payload,
    }
}

/// What a datagram says.
pub struct DatagramView {
    /// The session it belongs to.
    pub session_id: Option<u128>,
    /// The payload; a probe has none.
    pub payload: Option<Seq<u8>>,
}

/// `datagram` begins with `magic`.
pub open spec fn begins_with(datagram: Seq<u8>, magic: Seq<u8>) -> bool {
    datagram.len() >= magic.len() && datagram.take(magic.len() as int) == magic
}

/// The number of the session in the header of a datagram.
pub open spec fn session_of(datagram: Seq<u8>) -> u128 {
    be_value(datagram.subrange(4, 20)) as u128
}

/// Reads a datagram. All that is neither a probe nor a frame is unknown.
pub open spec fn decoded(datagram: Seq<u8>) -> Option<DatagramView> {
    if datagram == probe_magic() {
        Some(DatagramView { session_id: None, payload: None })
    } else if datagram.len() == UDP_SESSION_HEADER_LEN && begins_with(datagram, probe_magic()) {
        Some(DatagramView { session_id: Some(session_of(datagram)), payload: None })
    } else if datagram.len() >= UDP_SESSION_HEADER_LEN && begins_with(datagram, frame_magic()) {
        Some(
            DatagramView {
                session_id: Some(session_of(datagram)),
                payload: Some(datagram.skip(UDP_SESSION_HEADER_LEN as int)),
            },
        )
    } else if begins_with(datagram, legacy_magic()) {
        Some(DatagramView { session_id: None, payload: Some(datagram) })
    } else {
        None
    }
}

/// What a datagram says.
#[derive(Debug)]
pub struct DecodedUdpDatagram {
    /// The session it belongs to.
    pub session_id: Option<u128>,
    /// The payload; a probe has none.
    pub payload: Option<Vec<u8>>,
}

impl View for DecodedUdpDatagram {
    type V = DatagramView;

    open spec fn view(&self) -> DatagramView {
        DatagramView { session_id: self.session_id, payload: optional_bytes(self.payload) }
    }
}

/// Errors after which sending may succeed later.
pub open spec fn transient(would_block: bool, raw_os_error: Option<i32>) -> bool {
    would_block || raw_os_error == Some(55i32) || raw_os_error == Some(105i32) || raw_os_error
        == Some(10055i32)
}

/// Whether sending may succeed later: the system was busy or out of buffers. `would_block`
/// and `raw_os_error` are what the system said.
pub fn is_transient_udp_send_error(would_block: bool, raw_os_error: Option<i32>) -> (b: bool)
    ensures
        b == (would_block || raw_os_error == Some(55i32) || raw_os_error == Some(105i32)
            || raw_os_error == Some(10055i32)),
        b == transient(would_block, raw_os_error),
{
    would_block || match raw_os_error {
        Some(code) => code == 55 || code == 105 || code == 10055,
        None => false,
    }
}

/// Writes a probe.
pub fn encode_udp_probe(session_id: Option<u128>) -> (datagram: Vec<u8>)
    ensures
        datagram@ == probe_bytes(session_id),
{
    let magic: [u8; 4] = [65, 71, 80, 49];
    let mut datagram: Vec<u8> = copy_bytes(&magic);
    assert(datagram@ =~= probe_magic());
    if let Some(id) = session_id {
        push_u128(&mut datagram, id);
    }
    datagram
}

/// Writes a frame.
pub fn encode_udp_frame(session_id: Option<u128>, payload: Vec<u8>) -> (datagram: Vec<u8>)
    ensures
        datagram@ == frame_bytes(session_id, payload@),
{
    match session_id {
        Some(id) => {
            let magic: [u8; 4] = [65, 71, 85, 49];
            let mut datagram: Vec<u8> = copy_bytes(&magic);
            assert(datagram@ =~= frame_magic());
            push_u128(&mut datagram, id);
            push_all(&mut datagram, &payload);
            datagram
        },
        None => payload,
    }
}

/// Whether a datagram begins with four bytes.
fn starts_with(datagram: &[u8], magic: &[u8; 4]) -> (b: bool)
    ensures
        b == begins_with(datagram@, magic@),
{
    let b = has_at(datagram, 0, magic);
    assert(datagram@.len() >= 4 ==> datagram@.subrange(0, 4) =~= datagram@.take(4));
    b
}

/// Reads a datagram.
pub fn decode_udp_datagram(datagram: &[u8]) -> (r: Option<DecodedUdpDatagram>)
    ensures
        match r {
            Some(d) => decoded(datagram@) == Some(d@),
            None => decoded(datagram@) is None,
        },
{
    let probe: [u8; 4] = [65, 71, 80, 49];
    let frame: [u8; 4] = [65, 71, 85, 49];
    let legacy: [u8; 4] = [65, 71, 68, 49];
    proof {
        assert(probe@ =~= probe_magic());
        assert(frame@ =~= frame_magic());
        assert(legacy@ =~= legacy_magic());
    }
    if same_bytes(datagram, &probe) {
        return Some(DecodedUdpDatagram { session_id: None, payload: None });
    }
    if datagram.len() == UDP_SESSION_HEADER_LEN && starts_with(datagram, &probe) {
        let id: u128 = read_u128(datagram, 4);
        return Some(DecodedUdpDatagram { session_id: Some(id), payload: None });
    }
    if datagram.len() >= UDP_SESSION_HEADER_LEN && starts_with(datagram, &frame) {
        let id: u128 = read_u128(datagram, 4);
        let payload = copy_range(datagram, UDP_SESSION_HEADER_LEN, datagram.len());
        assert(payload@ =~= datagram@.skip(UDP_SESSION_HEADER_LEN as int));
        return Some(DecodedUdpDatagram { session_id: Some(id), payload: Some(payload) });
    }
    if starts_with(datagram, &legacy) {
        Some(DecodedUdpDatagram { session_id: None, payload: Some(copy_bytes(datagram)) })
    } else {
        None
    }
}

/// A probe is read as it was written, with or without a session.
pub proof fn law_probe_roundtrip(session_id: Option<u128>)
    ensures
        decoded(probe_bytes(session_id)) == Some(DatagramView { session_id, payload: None }),
{
    if let Some(id) = session_id {
        let datagram = probe_bytes(session_id);
        lemma_be_bytes_len(id as nat, 16);
        lemma_pow256_sizes();
        lemma_be_roundtrip(id as nat, 16);
        assert(datagram.take(4) =~= probe_magic());
        assert(datagram.subrange(4, 20) =~= be_bytes(id as nat, 16));
    }
}

/// A frame of a session is read as it was written, whatever its payload.
pub proof fn law_frame_roundtrip(id: u128, payload: Seq<u8>)
    ensures
        decoded(frame_bytes(Some(id), payload)) == Some(
            DatagramView { session_id: Some(id), payload: Some(payload) },
        ),
{
    let datagram = frame_bytes(Some(id), payload);
    lemma_be_bytes_len(id as nat, 16);
    lemma_pow256_sizes();
    lemma_be_roundtrip(id as nat, 16);
    assert(datagram.take(4) =~= frame_magic());
    assert(datagram[2] == 85);
    assert(probe_magic()[2] == 80);
    assert(datagram.subrange(4, 20) =~= be_bytes(id as nat, 16));
    assert(datagram.skip(20) =~= payload);
}

/// Without a session a payload is read as it was sent, if it is a link frame. One that is not
/// is unknown, or taken for something else.
pub proof fn law_legacy_roundtrip(payload: Seq<u8>)
    requires
        begins_with(payload, legacy_magic()),
    ensures
        decoded(frame_bytes(None, payload)) == Some(
            DatagramView { session_id: None, payload: Some(payload) },
        ),
{
    assert(payload.take(4)[2] == 68);
    assert(probe_magic()[2] == 80);
    assert(frame_magic()[2] == 85);
    assert(payload[2] == 68);
}

/// What stands where in a datagram: "AGP1" begins a probe and "AGU1" a frame, the number of the
/// session follows in sixteen bytes, and then the payload. Without a session a probe is its
/// first four bytes, and a payload is sent as it is.
pub proof fn law_datagram_layout(id: u128, payload: Seq<u8>, i: int)
    ensures
        probe_bytes(None) == seq![65u8, 71, 80, 49],
        probe_bytes(Some(id)).len() == 20,
        probe_bytes(Some(id)).take(4) == seq![65u8, 71, 80, 49],
        0 <= i < 16 ==> probe_bytes(Some(id))[4 + i] == id as int / pow(256, (15 - i) as nat) % 256,
        frame_bytes(None, payload) == payload,
        frame_bytes(Some(id), payload).len() == 20 + payload.len(),
        frame_bytes(Some(id), payload).take(4) == seq![65u8, 71, 85, 49],
        0 <= i < 16 ==> frame_bytes(Some(id), payload)[4 + i] == id as int / pow(
            256,
            (15 - i) as nat,
        ) % 256,
        frame_bytes(Some(id), payload).skip(20) == payload,
{
    lemma_be_bytes_len(id as nat, 16);
    assert(probe_bytes(Some(id)).take(4) =~= seq![65u8, 71, 80, 49]);
    assert(frame_bytes(Some(id), payload).take(4) =~= seq![65u8, 71, 85, 49]);
    assert(frame_bytes(Some(id), payload).skip(20) =~= payload);
    if 0 <= i < 16 {
        law_numbers_are_big_endian(id as nat, 16, i, Seq::empty());
        assert(probe_bytes(Some(id))[4 + i] == be_bytes(id as nat, 16)[i]);
        assert(frame_bytes(Some(id), payload)[4 + i] == be_bytes(id as nat, 16)[i]);
    }
}

/// Nothing is read from a datagram but what was written into it: one that is read without a
/// payload is a probe of the session that was read, and one that is read with a payload is the
/// frame of that session with that payload. All others are unknown: those that are neither a
/// probe with or without a session, nor at least as long as the header of a frame and begun
/// like one, nor begun by "AGD1".
#[verifier::rlimit(60)]
pub proof fn law_only_what_was_written_is_read(datagram: Seq<u8>)
    ensures
        decoded(datagram) matches Some(d) ==> datagram == match d.payload {
            None => probe_bytes(d.session_id),
            Some(payload) => frame_bytes(d.session_id, payload),
        },
        decoded(datagram) is Some <==> ({
            let n = datagram.len();
            &&& n >= 4
            &&& datagram[0] == 65 && datagram[1] == 71 && datagram[3] == 49
            &&& datagram[2] == 80 && (n == 4 || n == 20) || datagram[2] == 85 && n >= 20
                || datagram[2] == 68
        }),
        decoded(datagram) matches Some(d) ==> (d.payload is None <==> datagram[2] == 80)
            && (d.session_id is None <==> datagram.len() == 4 || datagram[2] == 68),
{
    let n = datagram.len();
    if n >= 4 {
        let head = datagram.take(4);
        assert(head[0] == datagram[0] && head[1] == datagram[1] && head[2] == datagram[2] && head[3]
            == datagram[3]);
        assert(head == probe_magic() <==> datagram[0] == 65 && datagram[1] == 71 && datagram[2] == 80
            && datagram[3] == 49) by {
            if datagram[0] == 65 && datagram[1] == 71 && datagram[2] == 80 && datagram[3] == 49 {
                assert(head =~= probe_magic());
            }
        }
        assert(head == frame_magic() <==> datagram[0] == 65 && datagram[1] == 71 && datagram[2] == 85
            && datagram[3] == 49) by {
            if datagram[0] == 65 && datagram[1] == 71 && datagram[2] == 85 && datagram[3] == 49 {
                assert(head =~= frame_magic());
            }
        }
        assert(head == legacy_magic() <==> datagram[0] == 65 && datagram[1] == 71 && datagram[2]
            == 68 && datagram[3] == 49) by {
            if datagram[0] == 65 && datagram[1] == 71 && datagram[2] == 68 && datagram[3] == 49 {
                assert(head =~= legacy_magic());
            }
        }
        if n == 4 {
            assert(head =~= datagram);
        }
    }
    if decoded(datagram) is Some && n >= 20 && datagram[2] != 68 {
        let id = datagram.subrange(4, 20);
        lemma_pow256_sizes();
        lemma_be_value_bound(id);
        lemma_be_roundtrip_bytes(id);
        if n == 20 && datagram[2] == 80 {
            assert(datagram =~= datagram.take(4) + id);
        } else {
            assert(datagram =~= datagram.take(4) + id + datagram.skip(20));
        }
    }
}

/// What is seen of a datagram that was read is all of it.
pub proof fn law_datagrams_are_seen_whole(d: DecodedUdpDatagram)
    ensures
        d@.session_id == d.session_id,
        d@.payload is None <==> d.payload is None,
        d.payload is Some ==> d@.payload == Some(d.payload->0@),
{
}

/// Sending may succeed later where the system was busy, whatever else it said, and where it was
/// out of buffers, which is number 55, 105 or 10055, depending on the system; after no other
/// error.
pub proof fn law_transient_errors(code: i32)
    ensures
        transient(true, Some(code)) && transient(true, None),
        transient(false, Some(code)) <==> code == 55 || code == 105 || code == 10055,
        !transient(false, None),
{
}

} // verus!
