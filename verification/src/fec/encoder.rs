//! The sending side of forward error correction.

use crate::error::TransportError;
use crate::fec::codec::{
    any_part_recovers, code_supported, rs_encode, rs_parity, shard_views, uniform,
};
use crate::wire::{be_bytes, push_all, push_u16, push_u32};
use vstd::prelude::*;

verus! {

/// Size of the header of each packet.
pub const FEC_HEADER_SIZE: usize = 9;

/// The largest datagram that can be sent.
pub const MAX_SHARD_PAYLOAD: usize = 1500;

/// `s` cut off, or filled up with zeros, to `len` bytes.
pub open spec fn resized(s: Seq<u8>, len: nat) -> Seq<u8> {
    Seq::new(
        len,
        |i: int|
            if i < s.len() {
                s[i]
            } else {
                0u8
            },
    )
}

/// The length of the longest payload.
pub open spec fn longest(payloads: Seq<Seq<u8>>) -> nat
    decreases payloads.len(),
{
    if payloads.len() == 0 {
        0
    } else {
        let rest = longest(payloads.drop_last());
        if payloads.last().len() > rest {
            payloads.last().len()
        } else {
            rest
        }
    }
}

/// A payload behind its length, which so survives the loss of the shard.
pub open spec fn prefixed(payload: Seq<u8>) -> Seq<u8> {
    be_bytes(payload.len(), 2) + payload
}

/// The data shards of a block: the prefixed payloads, all brought to one length.
pub open spec fn data_shards_of(payloads: Seq<Seq<u8>>) -> Seq<Seq<u8>> {
    Seq::new(payloads.len(), |i: int| resized(prefixed(payloads[i]), 2 + longest(payloads)))
}

/// All shards of a block.
pub open spec fn shards_of(payloads: Seq<Seq<u8>>, parity: nat) -> Seq<Seq<u8>> {
    data_shards_of(payloads) + rs_parity(data_shards_of(payloads), parity)
}

/// One packet on the wire.
pub open spec fn packet_bytes(
    block_id: u32,
    index: nat,
    data: nat,
    parity: nat,
    shard: Seq<u8>,
) -> Seq<u8> {
    be_bytes(block_id as nat, 4) + seq![index as u8, data as u8, parity as u8] + be_bytes(
        shard.len(),
        2,
    ) + shard
}

/// The packets of a block.
pub open spec fn block_packets(block_id: u32, payloads: Seq<Seq<u8>>, parity: nat) -> Seq<
    Seq<u8>,
> {
    Seq::new(
        payloads.len() + parity,
        |i: int|
            packet_bytes(
                block_id,
                i as nat,
                payloads.len(),
                parity,
                shards_of(payloads, parity)[i],
            ),
    )
}

/// A block as every encoder sends it: there are `parity` parity shards, as long as the data
/// shards, and any `payloads.len()` of the shards give all of them back.
pub open spec fn well_coded(payloads: Seq<Seq<u8>>, parity: nat) -> bool {
    &&& code_supported(payloads.len(), parity)
    &&& payloads_fit(payloads)
    &&& rs_parity(data_shards_of(payloads), parity).len() == parity
    &&& uniform(shards_of(payloads, parity), 2 + longest(payloads))
    &&& any_part_recovers(payloads.len(), parity, shards_of(payloads, parity))
}

/// What an encoder holds.
pub struct EncoderState {
    /// The number of the next block.
    pub block_id: u32,
    /// The payloads that were taken for it.
    pub pending: Seq<Seq<u8>>,
}

/// The payloads of a block that is sent before it is full.
pub open spec fn filled_up(pending: Seq<Seq<u8>>, data: nat) -> Seq<Seq<u8>> {
    pending + Seq::new((data - pending.len()) as nat, |i: int| Seq::<u8>::empty())
}

/// What comes of a payload that fits, and the encoder after it: it waits, or completes a block,
/// whose packets go out.
pub open spec fn payload_taken(e: EncoderState, payload: Seq<u8>, data: nat, parity: nat) -> (
    EncoderState,
    Option<Seq<Seq<u8>>>,
) {
    let block = e.pending.push(payload);
    if block.len() < data {
        (EncoderState { block_id: e.block_id, pending: block }, None)
    } else {
        (
            EncoderState { block_id: e.block_id.wrapping_add(1), pending: Seq::empty() },
            Some(block_packets(e.block_id, block, parity)),
        )
    }
}

/// Groups outgoing datagrams into blocks.
#[derive(Debug)]
pub struct FecEncoder {
    /// Number of data shards per block.
    pub data_shards: usize,
    /// Number of parity shards per block.
    pub parity_shards: usize,
    /// The number of the next block.
    pub block_id: u32,
    /// The payloads of the next block so far.
    pub shard_buf: Vec<Vec<u8>>,
}

impl View for FecEncoder {
    type V = EncoderState;

    open spec fn view(&self) -> EncoderState {
        EncoderState { block_id: self.block_id, pending: shard_views(self.shard_buf@) }
    }
}

/// No payload is too large.
pub open spec fn payloads_fit(payloads: Seq<Seq<u8>>) -> bool {
    forall|i: int|
        0 <= i < payloads.len() ==> (#[trigger] payloads[i]).len() <= MAX_SHARD_PAYLOAD
}

/// No payload is longer than the longest.
pub proof fn lemma_longest(payloads: Seq<Seq<u8>>)
    ensures
        forall|i: int| 0 <= i < payloads.len() ==> (#[trigger] payloads[i]).len() <= longest(payloads),
        payloads_fit(payloads) ==> longest(payloads) <= MAX_SHARD_PAYLOAD,
    decreases payloads.len(),
{
    if payloads.len() > 0 {
        let rest = payloads.drop_last();
        lemma_longest(rest);
        assert forall|i: int| 0 <= i < payloads.len() implies (#[trigger] payloads[i]).len()
            <= longest(payloads) by {
            if i < rest.len() {
                assert(rest[i] == payloads[i]);
            }
        }
        if payloads_fit(payloads) {
            assert forall|i: int| 0 <= i < rest.len() implies (#[trigger] rest[i]).len()
                <= MAX_SHARD_PAYLOAD by {
                assert(rest[i] == payloads[i]);
            }
            assert(payloads[payloads.len() - 1].len() <= MAX_SHARD_PAYLOAD);
        }
    }
}

impl FecEncoder {
    /// The shard counts are those of a code, and less than a block of fitting payloads waits.
    pub open spec fn wf(&self) -> bool {
        &&& code_supported(self.data_shards as nat, self.parity_shards as nat)
        &&& self.shard_buf@.len() < self.data_shards
        &&& payloads_fit(self@.pending)
    }

    /// An encoder that has sent nothing yet.
    pub fn new(data_shards: usize, parity_shards: usize) -> (e: FecEncoder)
        requires
            code_supported(data_shards as nat, parity_shards as nat),
        ensures
            e.wf(),
            e.data_shards == data_shards,
            e.parity_shards == parity_shards,
            e@.block_id == 0,
            e@.pending == Seq::<Seq<u8>>::empty(),
    {
        FecEncoder { data_shards, parity_shards, block_id: 0, shard_buf: Vec::new() }
    }

    /// Takes a payload. Returns the packets of the block that it completes, if it does.
    pub fn add_payload(&mut self, payload: &[u8]) -> (r: Result<
        Option<Vec<Vec<u8>>>,
        TransportError,
    >)
        requires
            old(self).wf(),
        ensures
            final(self).wf(),
            final(self).data_shards == old(self).data_shards,
            final(self).parity_shards == old(self).parity_shards,
            match r {
                Err(e) => payload@.len() > MAX_SHARD_PAYLOAD && e
                    == TransportError::FecPayloadTooLarge(payload@.len() as usize) && final(self)@
                    == old(self)@,
                Ok(None) => payload@.len() <= MAX_SHARD_PAYLOAD && old(self)@.pending.len() + 1
                    < old(self).data_shards && final(self)@ == (EncoderState {
                    block_id: old(self)@.block_id,
                    pending: old(self)@.pending.push(payload@),
                }),
                Ok(Some(packets)) => payload@.len() <= MAX_SHARD_PAYLOAD && old(self)@.pending.len()
                    + 1 == old(self).data_shards && final(self)@ == (EncoderState {
                    block_id: old(self)@.block_id.wrapping_add(1),
                    pending: Seq::empty(),
                }) && shard_views(packets@) == block_packets(
                    old(self)@.block_id,
                    old(self)@.pending.push(payload@),
                    old(self).parity_shards as nat,
                ) && well_coded(
                    old(self)@.pending.push(payload@),
                    old(self).parity_shards as nat,
                ),
            },
            r matches Ok(out) ==> (
                final(self)@,
                match out {
                    Some(packets) => Some(shard_views(packets@)),
                    None => None,
                },
            ) == payload_taken(
                old(self)@,
                payload@,
                old(self).data_shards as nat,
                old(self).parity_shards as nat,
            ),
    {
        if payload.len() > MAX_SHARD_PAYLOAD {
            return Err(TransportError::FecPayloadTooLarge(payload.len()));
        }
        self.shard_buf.push(vstd::slice::slice_to_vec(payload));
        assert(self@.pending =~= old(self)@.pending.push(payload@));
        if self.shard_buf.len() == self.data_shards {
            Ok(Some(self.flush_block()))
        } else {
            Ok(None)
        }
    }

    /// Sends the payloads that wait as a block of their own, filled up with empty ones.
    pub fn flush(&mut self) -> (r: Option<Vec<Vec<u8>>>)
        requires
            old(self).wf(),
        ensures
            final(self).wf(),
            final(self).data_shards == old(self).data_shards,
            final(self).parity_shards == old(self).parity_shards,
            match r {
                None => old(self)@.pending.len() == 0 && final(self)@ == old(self)@,
                Some(packets) => old(self)@.pending.len() > 0 && final(self)@ == (EncoderState {
                    block_id: old(self)@.block_id.wrapping_add(1),
                    pending: Seq::empty(),
                }) && shard_views(packets@) == block_packets(
                    old(self)@.block_id,
                    filled_up(old(self)@.pending, old(self).data_shards as nat),
                    old(self).parity_shards as nat,
                ) && well_coded(
                    filled_up(old(self)@.pending, old(self).data_shards as nat),
                    old(self).parity_shards as nat,
                ),
            },
    {
        if self.shard_buf.len() == 0 {
            return None;
        }
        let ghost before = self@.pending;
        while self.shard_buf.len() < self.data_shards
            invariant
                self.data_shards == old(self).data_shards,
                self.parity_shards == old(self).parity_shards,
                self.block_id == old(self).block_id,
                before.len() <= self.shard_buf@.len() <= self.data_shards,
                payloads_fit(self@.pending),
                self@.pending == filled_up(before, self.shard_buf@.len()),
            decreases self.data_shards - self.shard_buf@.len(),
        {
            let ghost now = self@.pending;
            self.shard_buf.push(Vec::new());
            proof {
                assert(self@.pending =~= now.push(Seq::empty()));
                assert(self@.pending =~= filled_up(before, self.shard_buf@.len()));
            }
        }
        Some(self.flush_block())
    }

    /// Turns a full block into packets.
    pub fn flush_block(&mut self) -> (packets: Vec<Vec<u8>>)
        requires
            code_supported(old(self).data_shards as nat, old(self).parity_shards as nat),
            old(self)@.pending.len() == old(self).data_shards,
            payloads_fit(old(self)@.pending),
        ensures
            final(self).wf(),
            final(self).data_shards == old(self).data_shards,
            final(self).parity_shards == old(self).parity_shards,
            final(self)@ == (EncoderState {
                block_id: old(self)@.block_id.wrapping_add(1),
                pending: Seq::empty(),
            }),
            shard_views(packets@) == block_packets(
                old(self)@.block_id,
                old(self)@.pending,
                old(self).parity_shards as nat,
            ),
            well_coded(old(self)@.pending, old(self).parity_shards as nat),
    {
        let block_id: u32 = self.block_id;
        self.block_id = self.block_id.wrapping_add(1);
        let ghost payloads = self@.pending;
        let mut shards: Vec<Vec<u8>> = pad_payloads(&self.shard_buf);
        self.shard_buf = Vec::new();
        assert(self@.pending =~= Seq::empty());
        let shard_len: usize = shards[0].len();
        let ghost data = shard_views(shards@);
        let total: usize = self.data_shards + self.parity_shards;
        proof {
            lemma_longest(payloads);
            assert(data[0] == shards@[0]@);
        }
        while shards.len() < total
            invariant
                self.data_shards <= shards@.len() <= total,
                data.len() == self.data_shards,
                uniform(data, shard_len as nat),
                uniform(shard_views(shards@), shard_len as nat),
                shard_views(shards@).take(self.data_shards as int) == data,
            decreases total - shards@.len(),
        {
            let ghost now = shard_views(shards@);
            shards.push(vec![0u8; shard_len]);
            proof {
                let then = shard_views(shards@);
                assert(then.take(self.data_shards as int) =~= now.take(self.data_shards as int));
                assert forall|i: int| 0 <= i < then.len() implies (#[trigger] then[i]).len()
                    == shard_len by {
                    if i < now.len() {
                        assert(then[i] == now[i]);
                    }
                }
            }
        }
        proof {
            assert(shard_views(shards@)[0] == shards@[0]@);
        }
        rs_encode(self.data_shards, self.parity_shards, &mut shards);
        proof {
            assert(shard_views(shards@) == shards_of(payloads, self.parity_shards as nat));
            assert(shards_of(payloads, self.parity_shards as nat).len() == total);
            assert forall|i: int| 0 <= i < shards@.len() implies (#[trigger] shards@[i])@.len()
                <= 0xffff by {
                assert(shard_views(shards@)[i] == shards@[i]@);
            }
        }
        let packets = encode_packets(block_id, self.data_shards, self.parity_shards, &shards);
        assert(shard_views(packets@) =~= block_packets(
            block_id,
            payloads,
            self.parity_shards as nat,
        ));
        packets
    }
}

/// Writes the packets that carry the shards of a block.
pub fn encode_packets(
    block_id: u32,
    data_shards: usize,
    parity_shards: usize,
    shards: &Vec<Vec<u8>>,
) -> (packets: Vec<Vec<u8>>)
    requires
        code_supported(data_shards as nat, parity_shards as nat),
        shards@.len() == data_shards + parity_shards,
        forall|i: int| 0 <= i < shards@.len() ==> (#[trigger] shards@[i])@.len() <= 0xffff,
    ensures
        shard_views(packets@) == Seq::new(
            shards@.len(),
            |i: int|
                packet_bytes(
                    block_id,
                    i as nat,
                    data_shards as nat,
                    parity_shards as nat,
                    shards@[i]@,
                ),
        ),
{
    let mut packets: Vec<Vec<u8>> = Vec::new();
    let mut index: usize = 0;
    while index < shards.len()
        invariant
            code_supported(data_shards as nat, parity_shards as nat),
            shards@.len() == data_shards + parity_shards,
            forall|i: int| 0 <= i < shards@.len() ==> (#[trigger] shards@[i])@.len() <= 0xffff,
            index <= shards@.len(),
            packets@.len() == index,
            shard_views(packets@) == Seq::new(
                index as nat,
                |i: int|
                    packet_bytes(
                        block_id,
                        i as nat,
                        data_shards as nat,
                        parity_shards as nat,
                        shards@[i]@,
                    ),
            ),
        decreases shards@.len() - index,
    {
        let ghost now = shard_views(packets@);
        let packet = encode_packet(block_id, index, data_shards, parity_shards, &shards[index]);
        packets.push(packet);
        proof {
            assert(shard_views(packets@) =~= now.push(packet@));
            assert(shard_views(packets@) =~= Seq::new(
                (index + 1) as nat,
                |i: int|
                    packet_bytes(
                        block_id,
                        i as nat,
                        data_shards as nat,
                        parity_shards as nat,
                        shards@[i]@,
                    ),
            ));
        }
        index += 1;
    }
    packets
}

/// Writes one packet.
pub fn encode_packet(
    block_id: u32,
    index: usize,
    data_shards: usize,
    parity_shards: usize,
    shard: &[u8],
) -> (packet: Vec<u8>)
    requires
        index <= 255,
        data_shards <= 255,
        parity_shards <= 255,
        shard@.len() <= 0xffff,
    ensures
        packet@ == packet_bytes(
            block_id,
            index as nat,
            data_shards as nat,
            parity_shards as nat,
            shard@,
        ),
{
    let mut packet: Vec<u8> = Vec::new();
    push_u32(&mut packet, block_id);
    packet.push(index as u8);
    packet.push(data_shards as u8);
    packet.push(parity_shards as u8);
    push_u16(&mut packet, shard.len() as u16);
    push_all(&mut packet, shard);
    assert(packet@ =~= packet_bytes(
        block_id,
        index as nat,
        data_shards as nat,
        parity_shards as nat,
        shard@,
    ));
    packet
}

/// The data shards of a block.
pub fn pad_payloads(payloads: &Vec<Vec<u8>>) -> (shards: Vec<Vec<u8>>)
    requires
        payloads_fit(shard_views(payloads@)),
    ensures
        shards@.len() == payloads@.len(),
        shard_views(shards@) == data_shards_of(shard_views(payloads@)),
        uniform(shard_views(shards@), 2 + longest(shard_views(payloads@))),
{
    let ghost views = shard_views(payloads@);
    proof {
        lemma_longest(views);
    }
    let mut max_len: usize = 0;
    let mut i: usize = 0;
    while i < payloads.len()
        invariant
            i <= payloads@.len(),
            views == shard_views(payloads@),
            max_len == longest(views.take(i as int)),
        decreases payloads@.len() - i,
    {
        proof {
            assert(views.take(i + 1).drop_last() =~= views.take(i as int));
            assert(views[i as int] == payloads@[i as int]@);
        }
        if payloads[i].len() > max_len {
            max_len = payloads[i].len();
        }
        i += 1;
    }
    assert(views.take(i as int) =~= views);
    let mut shards: Vec<Vec<u8>> = Vec::new();
    let mut k: usize = 0;
    while k < payloads.len()
        invariant
            k <= payloads@.len(),
            max_len <= MAX_SHARD_PAYLOAD,
            max_len == longest(views),
            views == shard_views(payloads@),
            payloads_fit(views),
            shards@.len() == k,
            shard_views(shards@) == data_shards_of(views).take(k as int),
        decreases payloads@.len() - k,
    {
        let ghost now = shard_views(shards@);
        let mut shard: Vec<u8> = Vec::new();
        assert(views[k as int] == payloads@[k as int]@);
        push_u16(&mut shard, payloads[k].len() as u16);
        push_all(&mut shard, &payloads[k]);
        let ghost unpadded = shard@;
        assert(unpadded =~= prefixed(views[k as int]));
        shard.resize(2 + max_len, 0);
        proof {
            assert(shard@ =~= resized(unpadded, (2 + max_len) as nat));
        }
        shards.push(shard);
        proof {
            assert(shard_views(shards@) =~= now.push(shard@));
            assert(shard_views(shards@) =~= data_shards_of(views).take(k + 1));
        }
        k += 1;
    }
    assert(shard_views(shards@) =~= data_shards_of(views));
    shards
}

} // verus!
