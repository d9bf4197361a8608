//! What holds of encoders and decoders together.

use crate::addr::SocketAddr;
use crate::fec::block::{
    lemma_with_keeps_wf, shard_payload, shard_payloads, BlockState, FecBlock,
};
use crate::fec::codec::{
    agrees_with, code_supported, partial_views, present_count, rs_parity, rs_recover, shard_views,
};
use crate::fec::decoder::{
    age, in_window, is_stalest, lemma_settled_len, lemma_some_stalest, lemma_trimmed, near_newest,
    newest_of, parse_packet, staler, trimmed, with_sender, BlockKey, DecoderState, FecDecoder,
    PacketState, MAX_BLOCKS, MAX_COMPLETED,
};
use crate::fec::encoder::{
    block_packets, data_shards_of, filled_up, lemma_longest, longest, packet_bytes, payloads_fit, prefixed,
    payload_taken, resized, shards_of, well_coded, EncoderState, FecEncoder,
};
use crate::fec::transport::{FecTransport, TransportState, FLUSH_TIMEOUT, RECV_BUFFER_LEN};
use crate::wire::{
    be_bytes, lemma_be_bytes_len, lemma_be_bytes_small, lemma_be_roundtrip, lemma_be_small,
    lemma_pow256_sizes,
};
use vstd::prelude::*;
use vstd::set_lib::{lemma_int_range, lemma_len_subset, lemma_map_size, set_int_range};

verus! {

/// A packet is read back as it was written.
pub proof fn law_packet_roundtrip(
    block_id: u32,
    index: nat,
    data: nat,
    parity: nat,
    shard: Seq<u8>,
)
    requires
        index <= 255,
        0 < data <= 255,
        0 < parity <= 255,
    ensures
        parse_packet(packet_bytes(block_id, index, data, parity, shard)) == Some(
            PacketState { block_id, index, data, parity, shard },
        ),
{
    let raw = packet_bytes(block_id, index, data, parity, shard);
    lemma_be_bytes_len(block_id as nat, 4);
    lemma_be_bytes_len(shard.len(), 2);
    assert(raw.take(4) =~= be_bytes(block_id as nat, 4));
    assert(raw.skip(9) =~= shard);
    lemma_pow256_sizes();
    lemma_be_roundtrip(block_id as nat, 4);
}

/// The payloads that a block delivers: all but the empty ones, in order.
pub open spec fn delivered(payloads: Seq<Seq<u8>>) -> Seq<Seq<u8>> {
    payloads.filter(|p: Seq<u8>| p.len() > 0)
}

/// A data shard gives its payload back.
pub proof fn lemma_shard_payload(payload: Seq<u8>, len: nat)
    requires
        payload.len() <= 0xffff,
        payload.len() + 2 <= len,
    ensures
        shard_payload(resized(prefixed(payload), len)) == if payload.len() == 0 {
            None::<Seq<u8>>
        } else {
            Some(payload)
        },
{
    let shard = resized(prefixed(payload), len);
    lemma_be_bytes_len(payload.len(), 2);
    assert(shard.take(2) =~= be_bytes(payload.len(), 2));
    lemma_pow256_sizes();
    lemma_be_roundtrip(payload.len(), 2);
    if payload.len() > 0 {
        assert(shard.subrange(2, 2 + payload.len() as int) =~= payload);
    }
}

/// The data shards of a block give its payloads back.
pub proof fn lemma_shard_payloads(payloads: Seq<Seq<u8>>, len: nat)
    requires
        payloads_fit(payloads),
        forall|i: int| 0 <= i < payloads.len() ==> (#[trigger] payloads[i]).len() + 2 <= len,
    ensures
        shard_payloads(
            Seq::new(payloads.len(), |i: int| resized(prefixed(payloads[i]), len)),
        ) == delivered(payloads),
    decreases payloads.len(),
{
    reveal(Seq::filter);
    let shards = Seq::new(payloads.len(), |i: int| resized(prefixed(payloads[i]), len));
    if payloads.len() > 0 {
        let rest = payloads.drop_last();
        assert forall|i: int| 0 <= i < rest.len() implies (#[trigger] rest[i]).len() + 2 <= len
            && rest[i].len() <= 1500 by {
            assert(rest[i] == payloads[i]);
        }
        lemma_shard_payloads(rest, len);
        assert(shards.drop_last() =~= Seq::new(
            rest.len(),
            |i: int| resized(prefixed(rest[i]), len),
        ));
        assert(payloads[payloads.len() - 1].len() <= 1500);
        lemma_shard_payload(payloads.last(), len);
    }
}

/// A block of which the shards `got` arrived.
pub open spec fn collected(payloads: Seq<Seq<u8>>, parity: nat, got: Set<int>) -> BlockState {
    BlockState {
        data: payloads.len(),
        parity,
        size: if got.len() == 0 {
            None
        } else {
            Some((2 + longest(payloads)) as nat)
        },
        shards: Seq::new(
            payloads.len() + parity,
            |i: int|
                if got.contains(i) {
                    Some(shards_of(payloads, parity)[i])
                } else {
                    None
                },
        ),
    }
}

/// As many shards are there as were collected.
pub proof fn lemma_collected_count(shards: Seq<Option<Seq<u8>>>, got: Set<int>)
    requires
        got.finite(),
        forall|i: int| #[trigger] got.contains(i) ==> 0 <= i < shards.len(),
        forall|i: int| 0 <= i < shards.len() ==> ((#[trigger] shards[i]) is Some <==> got.contains(i)),
    ensures
        present_count(shards) == got.len(),
    decreases shards.len(),
{
    if shards.len() == 0 {
        assert(got =~= Set::empty());
    } else {
        let last = shards.len() - 1;
        let rest = shards.drop_last();
        assert(shards[last] is Some <==> got.contains(last));
        assert forall|i: int| 0 <= i < rest.len() implies ((#[trigger] rest[i]) is Some
            <==> got.remove(last).contains(i)) by {
            assert(rest[i] == shards[i]);
        }
        lemma_collected_count(rest, got.remove(last));
    }
}

/// A block of which enough arrived delivers its payloads.
pub proof fn lemma_collected_payloads(payloads: Seq<Seq<u8>>, parity: nat, got: Set<int>)
    requires
        well_coded(payloads, parity),
        got.finite(),
        got.len() >= payloads.len(),
        forall|i: int| #[trigger] got.contains(i) ==> 0 <= i < payloads.len() + parity,
    ensures
        collected(payloads, parity, got).complete(),
        collected(payloads, parity, got).payloads() == Some(delivered(payloads)),
{
    let b = collected(payloads, parity, got);
    let whole = shards_of(payloads, parity);
    lemma_collected_count(b.shards, got);
    assert(agrees_with(b.shards, whole));
    assert(rs_recover(b.data, b.parity, b.shards) == whole);
    assert(whole.take(b.data as int) =~= data_shards_of(payloads));
    if !b.data_missing() {
        assert forall|i: int| 0 <= i < b.data implies #[trigger] b.shards[i] == Some(
            data_shards_of(payloads)[i],
        ) by {
            assert(b.shards[i] is Some);
            assert(whole[i] == data_shards_of(payloads)[i]);
        }
        assert(Seq::new(b.data, |i: int| b.shards[i]->0) =~= data_shards_of(payloads));
    }
    assert(b.recovered() == Some(data_shards_of(payloads)));
    lemma_longest(payloads);
    lemma_shard_payloads(payloads, 2 + longest(payloads));
}

/// The decoder has the shards `got` of a block and no others: while they are too few, they
/// are in the block in progress; once they are enough, the block is done.
pub open spec fn receiving(
    s: DecoderState,
    key: BlockKey,
    payloads: Seq<Seq<u8>>,
    parity: nat,
    got: Set<int>,
) -> bool {
    &&& got.finite()
    &&& forall|i: int| #[trigger] got.contains(i) ==> 0 <= i < payloads.len() + parity
    &&& if got.len() >= payloads.len() {
        s.completed.contains(key)
    } else {
        !s.completed.contains(key) && s.block_at(key, payloads.len(), parity) == collected(
            payloads,
            parity,
            got,
        )
    }
}

/// However many datagrams arrive, and from however many senders, a decoder never holds more
/// than 256 blocks in progress, nor more than 512 that are done.
pub proof fn law_decoder_memory_is_bounded(s: DecoderState, raw: Seq<u8>, addr: SocketAddr)
    ensures
        DecoderState::fresh().bounded(),
        s.bounded() ==> s.fed(raw, addr).bounded(),
        s.bounded() ==> s.fed(raw, addr).blocks.dom().len() <= 256,
        s.bounded() ==> s.fed(raw, addr).completed.len() <= 512,
{
    if s.bounded() && parse_packet(raw) is Some {
        let packet = parse_packet(raw)->0;
        let key = BlockKey { addr, block_id: packet.block_id };
        let block = s.block_at(key, packet.data, packet.parity).with(packet.index, packet.shard);
        lemma_settled_len(s.noted(key), key, block);
        lemma_evicted(s.noted(key).settled(key, block), key);
    }
}

/// Eviction forgets blocks, and does nothing else. It leaves the block to spare alone, and
/// brings a decoder that holds one block too many back into its bounds.
pub proof fn lemma_evicted(s: DecoderState, spare: BlockKey)
    requires
        s.blocks.dom().finite(),
        s.completed.finite(),
    ensures
        ({
            let after = s.evicted(spare);
            &&& after.blocks.dom().finite()
            &&& after.completed.finite()
            &&& after.blocks.submap_of(s.blocks)
            &&& after.completed.subset_of(s.completed)
            &&& s.blocks.contains_key(spare) ==> after.blocks.contains_key(spare)
            &&& s.completed.contains(spare) ==> after.completed.contains(spare)
            &&& s.blocks.dom().len() <= MAX_BLOCKS + 1 && s.completed.len() <= MAX_COMPLETED + 1
                ==> after.bounded()
        }),
{
    let after = s.evicted(spare);
    lemma_trimmed(s.max_block_ids, s.blocks.dom(), MAX_BLOCKS as nat, 128, spare);
    lemma_trimmed(s.max_block_ids, s.completed, MAX_COMPLETED as nat, 256, spare);
    assert(after.blocks.dom() =~= trimmed(
        s.max_block_ids,
        s.blocks.dom(),
        MAX_BLOCKS as nat,
        128,
        spare,
    ));
}

/// A datagram does not make the decoder forget a block, be it in progress or done.
pub open spec fn remembers(s: DecoderState, key: BlockKey, raw: Seq<u8>, addr: SocketAddr) -> bool {
    let after = s.fed(raw, addr);
    &&& s.blocks.contains_key(key) ==> after.blocks.contains_key(key)
    &&& s.completed.contains(key) ==> after.completed.contains(key)
}

/// What the packet with number `index` of a block does. It is taken note of once; when it is
/// the one that makes the shards enough, the payloads become ready, in order and all at
/// once; before and after that nothing does.
#[verifier::rlimit(60)]
pub proof fn law_packet_of_block(
    s: DecoderState,
    key: BlockKey,
    payloads: Seq<Seq<u8>>,
    parity: nat,
    got: Set<int>,
    index: int,
)
    requires
        well_coded(payloads, parity),
        s.bounded(),
        receiving(s, key, payloads, parity, got),
        0 <= index < payloads.len() + parity,
    ensures
        ({
            let raw = block_packets(key.block_id, payloads, parity)[index];
            let after = s.fed(raw, key.addr);
            let enough = got.len() < payloads.len() && got.insert(index).len() >= payloads.len();
            &&& receiving(after, key, payloads, parity, got.insert(index))
            &&& after.ready == s.ready + if enough {
                with_sender(delivered(payloads), key.addr)
            } else {
                Seq::empty()
            }
        }),
{
    let whole = shards_of(payloads, parity);
    let raw = block_packets(key.block_id, payloads, parity)[index];
    let after = s.fed(raw, key.addr);
    let more = got.insert(index);
    law_packet_roundtrip(key.block_id, index as nat, payloads.len(), parity, whole[index]);
    assert forall|i: int| #[trigger] more.contains(i) implies 0 <= i < payloads.len() + parity by {
        if i != index {
            assert(got.contains(i));
        }
    }
    if s.completed.contains(key) {
        assert(after == s);
        assert(after.ready =~= s.ready + Seq::empty());
    } else {
        let before = collected(payloads, parity, got);
        let then = collected(payloads, parity, more);
        assert(whole[index].len() == 2 + longest(payloads));
        assert(resized(whole[index], (2 + longest(payloads)) as nat) =~= whole[index]);
        if got.contains(index) {
            assert(more =~= got);
            assert(before.with(index as nat, whole[index]) == then);
        } else {
            if got.len() == 0 {
                assert(got =~= Set::empty());
            }
            assert(before.with(index as nat, whole[index]).shards =~= then.shards);
        }
        lemma_settled_len(s.noted(key), key, then);
        lemma_evicted(s.noted(key).settled(key, then), key);
        lemma_collected_count(then.shards, more);
        if more.len() >= payloads.len() {
            lemma_collected_payloads(payloads, parity, more);
        } else {
            assert(after.ready =~= s.ready + Seq::empty());
        }
    }
}

/// The key of the block that a datagram belongs to.
pub open spec fn belongs_to(raw: Seq<u8>, addr: SocketAddr, key: BlockKey) -> bool {
    match parse_packet(raw) {
        Some(packet) => key == (BlockKey { addr, block_id: packet.block_id }),
        None => false,
    }
}

/// A datagram that belongs to another block changes nothing about this one, unless the
/// decoder forgets it.
pub proof fn law_other_blocks_do_not_interfere(
    s: DecoderState,
    key: BlockKey,
    payloads: Seq<Seq<u8>>,
    parity: nat,
    got: Set<int>,
    raw: Seq<u8>,
    addr: SocketAddr,
)
    requires
        s.bounded(),
        receiving(s, key, payloads, parity, got),
        !belongs_to(raw, addr, key),
        remembers(s, key, raw, addr),
    ensures
        receiving(s.fed(raw, addr), key, payloads, parity, got),
{
    if parse_packet(raw) is Some {
        let packet = parse_packet(raw)->0;
        let cause = BlockKey { addr, block_id: packet.block_id };
        let block = s.block_at(cause, packet.data, packet.parity).with(packet.index, packet.shard);
        lemma_settled_len(s.noted(cause), cause, block);
        lemma_evicted(s.noted(cause).settled(cause, block), cause);
    }
}

/// A decoder that is not full forgets nothing.
pub proof fn law_nothing_is_forgotten_early(
    s: DecoderState,
    key: BlockKey,
    raw: Seq<u8>,
    addr: SocketAddr,
)
    requires
        s.bounded(),
        s.blocks.dom().len() < 256,
        s.completed.len() < 512,
        !belongs_to(raw, addr, key),
    ensures
        remembers(s, key, raw, addr),
{
    if parse_packet(raw) is Some {
        let packet = parse_packet(raw)->0;
        let cause = BlockKey { addr, block_id: packet.block_id };
        let block = s.block_at(cause, packet.data, packet.parity).with(packet.index, packet.shard);
        lemma_settled_len(s.noted(cause), cause, block);
    }
}

/// No more keys of one sender lie in a window than it is wide.
pub proof fn lemma_window_size(
    keys: Set<BlockKey>,
    addr: SocketAddr,
    newest: u32,
    back: u32,
    width: u32,
)
    requires
        keys.finite(),
        forall|k: BlockKey| #[trigger]
            keys.contains(k) ==> k.addr == addr && in_window(k.block_id, newest, back, width),
    ensures
        keys.len() <= width,
{
    let first = newest.wrapping_sub(back);
    let place = |k: BlockKey| k.block_id.wrapping_sub(first) as int;
    let places = keys.map(place);
    assert forall|a: BlockKey, b: BlockKey|
        keys.contains(a) && keys.contains(b) && #[trigger] place(a) == #[trigger] place(b) implies a
        == b by {}
    lemma_map_size(keys, places, place);
    lemma_int_range(0, width as int);
    assert(places.subset_of(set_int_range(0, width as int)));
    lemma_len_subset(places, set_int_range(0, width as int));
}

/// Of the keys of one sender, those in the window of a block that itself lies in it are kept.
proof fn lemma_window_is_kept(
    ids: Map<SocketAddr, u32>,
    keys: Set<BlockKey>,
    limit: u32,
    back: u32,
    spare: BlockKey,
    key: BlockKey,
)
    requires
        keys.finite(),
        keys.contains(key),
        forall|k: BlockKey| #[trigger] keys.contains(k) ==> k.addr == spare.addr,
        in_window(spare.block_id, newest_of(ids, spare.addr), back, limit),
        in_window(key.block_id, newest_of(ids, spare.addr), back, limit),
    ensures
        trimmed(ids, keys, limit as nat, back, spare).contains(key),
{
    let near = keys.filter(|k: BlockKey| near_newest(ids, k, limit as nat, back, spare));
    lemma_len_subset(near, keys);
    assert forall|k: BlockKey| #[trigger] near.contains(k) implies k.addr == spare.addr && in_window(
        k.block_id,
        newest_of(ids, spare.addr),
        back,
        limit,
    ) by {
        assert(keys.contains(k));
    }
    lemma_window_size(near, spare.addr, newest_of(ids, spare.addr), back, limit);
}

/// Where all blocks are those of one sender, a packet of a block among its latest leaves all
/// blocks in the window around the newest one alone: those up to 128 behind it that are in
/// progress, and those up to 256 behind it that are done.
#[verifier::rlimit(60)]
pub proof fn law_window_is_remembered(
    s: DecoderState,
    key: BlockKey,
    cause: BlockKey,
    raw: Seq<u8>,
)
    requires
        s.bounded(),
        belongs_to(raw, cause.addr, cause),
        key != cause,
        forall|k: BlockKey| #[trigger] s.blocks.contains_key(k) ==> k.addr == cause.addr,
        forall|k: BlockKey| #[trigger] s.completed.contains(k) ==> k.addr == cause.addr,
        in_window(
            cause.block_id,
            newest_of(s.noted(cause).max_block_ids, cause.addr),
            128,
            256,
        ),
    ensures
        ({
            let newest = newest_of(s.noted(cause).max_block_ids, cause.addr);
            let after = s.fed(raw, cause.addr);
            &&& s.blocks.contains_key(key) && in_window(key.block_id, newest, 128, 256)
                ==> after.blocks.contains_key(key)
            &&& s.completed.contains(key) && in_window(key.block_id, newest, 256, 512)
                ==> after.completed.contains(key)
        }),
{
    let packet = parse_packet(raw)->0;
    let newest = newest_of(s.noted(cause).max_block_ids, cause.addr);
    let block = s.block_at(cause, packet.data, packet.parity).with(packet.index, packet.shard);
    let full = s.noted(cause).settled(cause, block);
    lemma_settled_len(s.noted(cause), cause, block);
    assert forall|k: BlockKey| #[trigger] full.blocks.dom().contains(k) implies k.addr
        == cause.addr by {
        if k != cause {
            assert(s.blocks.contains_key(k));
        }
    }
    if s.blocks.contains_key(key) && in_window(key.block_id, newest, 128, 256) {
        lemma_window_is_kept(full.max_block_ids, full.blocks.dom(), 256, 128, cause, key);
    }
    if s.completed.contains(key) && in_window(key.block_id, newest, 256, 512) {
        lemma_window_is_kept(full.max_block_ids, full.completed, 512, 256, cause, key);
    }
}

/// The decoder after a run of datagrams.
pub open spec fn fed_all(s: DecoderState, events: Seq<(Seq<u8>, SocketAddr)>) -> DecoderState
    decreases events.len(),
{
    if events.len() == 0 {
        s
    } else {
        fed_all(s, events.drop_last()).fed(events.last().0, events.last().1)
    }
}

/// The datagram is the packet with number `index` of a block.
pub open spec fn is_packet(
    event: (Seq<u8>, SocketAddr),
    key: BlockKey,
    payloads: Seq<Seq<u8>>,
    parity: nat,
    index: int,
) -> bool {
    &&& 0 <= index < payloads.len() + parity
    &&& event.1 == key.addr
    &&& event.0 == block_packets(key.block_id, payloads, parity)[index]
}

/// The numbers of the packets of a block that are among the datagrams.
pub open spec fn arrived(
    events: Seq<(Seq<u8>, SocketAddr)>,
    key: BlockKey,
    payloads: Seq<Seq<u8>>,
    parity: nat,
) -> Set<int>
    decreases events.len(),
{
    if events.len() == 0 {
        Set::empty()
    } else {
        let rest = arrived(events.drop_last(), key, payloads, parity);
        if exists|i: int| is_packet(events.last(), key, payloads, parity, i) {
            rest.insert(choose|i: int| is_packet(events.last(), key, payloads, parity, i))
        } else {
            rest
        }
    }
}

/// A run of datagrams in which everything that claims to belong to the block does, and in
/// which nothing makes the decoder forget the block.
pub open spec fn faithful_run(
    s: DecoderState,
    events: Seq<(Seq<u8>, SocketAddr)>,
    key: BlockKey,
    payloads: Seq<Seq<u8>>,
    parity: nat,
) -> bool
    decreases events.len(),
{
    if events.len() == 0 {
        true
    } else {
        let before = fed_all(s, events.drop_last());
        let (raw, addr) = events.last();
        &&& faithful_run(s, events.drop_last(), key, payloads, parity)
        &&& belongs_to(raw, addr, key) ==> exists|i: int|
            is_packet(events.last(), key, payloads, parity, i)
        &&& !belongs_to(raw, addr, key) ==> remembers(before, key, raw, addr)
    }
}

/// Different packets of a block are different datagrams.
pub proof fn lemma_packet_index(
    event: (Seq<u8>, SocketAddr),
    key: BlockKey,
    payloads: Seq<Seq<u8>>,
    parity: nat,
    i: int,
    j: int,
)
    requires
        well_coded(payloads, parity),
        is_packet(event, key, payloads, parity, i),
        is_packet(event, key, payloads, parity, j),
    ensures
        i == j,
        belongs_to(event.0, event.1, key),
{
    let whole = shards_of(payloads, parity);
    law_packet_roundtrip(key.block_id, i as nat, payloads.len(), parity, whole[i]);
    law_packet_roundtrip(key.block_id, j as nat, payloads.len(), parity, whole[j]);
}

/// However the packets of a block arrive - in any order, some twice, some not at all, and
/// among the packets of any other blocks - the decoder keeps exactly those that arrived until
/// they are enough, and then the block is done. The payloads become ready, in order and all
/// at once, with the packet that makes them enough, and no other packet of the block makes
/// anything ready.
#[verifier::rlimit(60)]
pub proof fn law_block_is_delivered_once(
    s: DecoderState,
    events: Seq<(Seq<u8>, SocketAddr)>,
    key: BlockKey,
    payloads: Seq<Seq<u8>>,
    parity: nat,
)
    requires
        well_coded(payloads, parity),
        s.bounded(),
        receiving(s, key, payloads, parity, Set::empty()),
        faithful_run(s, events, key, payloads, parity),
    ensures
        fed_all(s, events).bounded(),
        receiving(
            fed_all(s, events),
            key,
            payloads,
            parity,
            arrived(events, key, payloads, parity),
        ),
        forall|k: int|
            0 <= k < events.len() && belongs_to(events[k].0, events[k].1, key) ==> {
                let before = #[trigger] events.take(k);
                let after = events.take(k + 1);
                let enough = arrived(before, key, payloads, parity).len() < payloads.len()
                    && arrived(after, key, payloads, parity).len() >= payloads.len();
                fed_all(s, after).ready == fed_all(s, before).ready + if enough {
                    with_sender(delivered(payloads), key.addr)
                } else {
                    Seq::empty()
                }
            },
    decreases events.len(),
{
    if events.len() > 0 {
        let rest = events.drop_last();
        let last = events.len() - 1;
        let before = fed_all(s, rest);
        let got = arrived(rest, key, payloads, parity);
        let (raw, addr) = events.last();
        law_block_is_delivered_once(s, rest, key, payloads, parity);
        law_decoder_memory_is_bounded(before, raw, addr);
        assert(events.take(last) =~= rest);
        assert(events.take(last + 1) =~= events);
        if exists|i: int| is_packet(events.last(), key, payloads, parity, i) {
            let i = choose|i: int| is_packet(events.last(), key, payloads, parity, i);
            lemma_packet_index(events.last(), key, payloads, parity, i, i);
            law_packet_of_block(before, key, payloads, parity, got, i);
        } else {
            law_other_blocks_do_not_interfere(before, key, payloads, parity, got, raw, addr);
        }
        assert forall|k: int|
            0 <= k < events.len() && belongs_to(events[k].0, events[k].1, key) implies {
            let before = #[trigger] events.take(k);
            let after = events.take(k + 1);
            let enough = arrived(before, key, payloads, parity).len() < payloads.len() && arrived(
                after,
                key,
                payloads,
                parity,
            ).len() >= payloads.len();
            fed_all(s, after).ready == fed_all(s, before).ready + if enough {
                with_sender(delivered(payloads), key.addr)
            } else {
                Seq::empty()
            }
        } by {
            if k < last {
                assert(events.take(k) =~= rest.take(k));
                assert(events.take(k + 1) =~= rest.take(k + 1));
                assert(rest[k] == events[k]);
                assert(rest.take(k) == events.take(k));
            }
        }
    }
}

/// The datagrams that carry the packets of a block with the given numbers.
pub open spec fn packets_in_order(
    order: Seq<int>,
    key: BlockKey,
    payloads: Seq<Seq<u8>>,
    parity: nat,
) -> Seq<(Seq<u8>, SocketAddr)> {
    Seq::new(
        order.len(),
        |k: int| (block_packets(key.block_id, payloads, parity)[order[k]], key.addr),
    )
}

/// Any `payloads.len()` different packets of a block are enough to get its payloads back, in
/// whatever order they arrive; with fewer nothing is delivered. Empty payloads are not
/// delivered.
pub proof fn law_enough_packets_deliver(
    s: DecoderState,
    order: Seq<int>,
    key: BlockKey,
    payloads: Seq<Seq<u8>>,
    parity: nat,
)
    requires
        well_coded(payloads, parity),
        s.bounded(),
        !s.completed.contains(key),
        !s.blocks.contains_key(key),
        forall|k: int| 0 <= k < order.len() ==> 0 <= #[trigger] order[k] < payloads.len() + parity,
    ensures
        fed_all(s, packets_in_order(order, key, payloads, parity)).ready == s.ready
            + if order.to_set().len() >= payloads.len() {
            with_sender(delivered(payloads), key.addr)
        } else {
            Seq::empty()
        },
{
    assert(s.block_at(key, payloads.len(), parity) =~= collected(payloads, parity, Set::empty()));
    lemma_enough_packets(s, order, key, payloads, parity);
}

/// The state of the decoder along the packets of one block.
proof fn lemma_enough_packets(
    s: DecoderState,
    order: Seq<int>,
    key: BlockKey,
    payloads: Seq<Seq<u8>>,
    parity: nat,
)
    requires
        well_coded(payloads, parity),
        s.bounded(),
        receiving(s, key, payloads, parity, Set::empty()),
        forall|k: int| 0 <= k < order.len() ==> 0 <= #[trigger] order[k] < payloads.len() + parity,
    ensures
        ({
            let after = fed_all(s, packets_in_order(order, key, payloads, parity));
            let got = order.to_set();
            &&& after.bounded()
            &&& receiving(after, key, payloads, parity, got)
            &&& after.ready == s.ready + if got.len() >= payloads.len() {
                with_sender(delivered(payloads), key.addr)
            } else {
                Seq::empty()
            }
        }),
    decreases order.len(),
{
    let events = packets_in_order(order, key, payloads, parity);
    if order.len() == 0 {
        assert(order.to_set() =~= Set::empty());
        assert(s.ready =~= s.ready + Seq::empty());
    } else {
        let rest = order.drop_last();
        let index = order.last();
        let got = rest.to_set();
        let before = fed_all(s, packets_in_order(rest, key, payloads, parity));
        assert forall|k: int| 0 <= k < rest.len() implies 0 <= #[trigger] rest[k] < payloads.len()
            + parity by {
            assert(rest[k] == order[k]);
        }
        lemma_enough_packets(s, rest, key, payloads, parity);
        assert(events.drop_last() =~= packets_in_order(rest, key, payloads, parity));
        assert(order.to_set() =~= got.insert(index)) by {
            assert(order[order.len() - 1] == index);
            assert forall|x: int| got.contains(x) implies order.to_set().contains(x) by {
                let k = choose|k: int| 0 <= k < rest.len() && rest[k] == x;
                assert(order[k] == x);
            }
            assert forall|x: int| order.to_set().contains(x) && x != index implies got.contains(
                x,
            ) by {
                let k = choose|k: int| 0 <= k < order.len() && order[k] == x;
                assert(rest[k] == x);
            }
        }
        let after = fed_all(s, events);
        let raw = block_packets(key.block_id, payloads, parity)[index];
        assert(0 <= order[order.len() - 1] < payloads.len() + parity);
        assert(after == before.fed(raw, key.addr));
        law_packet_of_block(before, key, payloads, parity, got, index);
        law_decoder_memory_is_bounded(before, raw, key.addr);
        assert(after.ready =~= s.ready + if order.to_set().len() >= payloads.len() {
            with_sender(delivered(payloads), key.addr)
        } else {
            Seq::empty()
        });
    }
}

/// The invariant of a decoder: every block in progress is well-formed, has at least one data
/// and one parity shard, too few shards to be complete, and is not done.
pub open spec fn decoder_sound(s: DecoderState) -> bool {
    &&& s.blocks.dom().finite()
    &&& s.completed.finite()
    &&& forall|k: BlockKey| #[trigger]
        s.blocks.contains_key(k) ==> {
            &&& s.blocks[k].wf()
            &&& 0 < s.blocks[k].data <= 255
            &&& 0 < s.blocks[k].parity <= 255
            &&& !s.blocks[k].complete()
            &&& !s.completed.contains(k)
        }
}

/// Every decoder satisfies its invariant at first, and every datagram keeps it.
pub proof fn law_decoder_stays_sound(s: DecoderState, raw: Seq<u8>, addr: SocketAddr)
    ensures
        decoder_sound(DecoderState::fresh()),
        decoder_sound(s) ==> decoder_sound(s.fed(raw, addr)),
{
    if decoder_sound(s) && parse_packet(raw) is Some {
        let packet = parse_packet(raw)->0;
        let key = BlockKey { addr, block_id: packet.block_id };
        let block = s.block_at(key, packet.data, packet.parity);
        lemma_with_keeps_wf(block, packet.index, packet.shard);
        let full = s.noted(key).settled(key, block.with(packet.index, packet.shard));
        lemma_settled_len(s.noted(key), key, block.with(packet.index, packet.shard));
        lemma_evicted(full, key);
        if !s.completed.contains(key) {
            assert forall|k: BlockKey| #[trigger] s.fed(raw, addr).blocks.contains_key(k) implies {
                let b = s.fed(raw, addr).blocks[k];
                &&& b.wf()
                &&& 0 < b.data <= 255
                &&& 0 < b.parity <= 255
                &&& !b.complete()
                &&& !s.fed(raw, addr).completed.contains(k)
            } by {
                assert(full.blocks.contains_key(k));
                if k != key {
                    assert(s.blocks.contains_key(k));
                }
            }
        }
    }
}

/// Once a block is done, its packets change nothing.
pub proof fn law_completed_block_is_final(
    s: DecoderState,
    key: BlockKey,
    raw: Seq<u8>,
    addr: SocketAddr,
)
    requires
        s.completed.contains(key),
        belongs_to(raw, addr, key),
    ensures
        s.fed(raw, addr) == s,
{
}

/// A datagram touches nothing of other senders than its own: their blocks stay as they are,
/// unless they are forgotten, none of them becomes done, and all that becomes ready is its
/// own sender's.
pub proof fn law_senders_do_not_mix(s: DecoderState, raw: Seq<u8>, addr: SocketAddr)
    ensures
        ({
            let after = s.fed(raw, addr);
            &&& forall|k: BlockKey| #[trigger]
                after.blocks.contains_key(k) && k.addr != addr ==> s.blocks.contains_key(k)
                    && after.blocks[k] == s.blocks[k]
            &&& forall|k: BlockKey| #[trigger]
                after.completed.contains(k) && k.addr != addr ==> s.completed.contains(k)
            &&& s.ready.is_prefix_of(after.ready)
            &&& forall|i: int|
                s.ready.len() <= i < after.ready.len() ==> (#[trigger] after.ready[i]).1 == addr
        }),
{
}

/// Sending to one target leaves the encoders and the deadlines of all others alone.
pub proof fn law_targets_do_not_mix(
    t: TransportState,
    target: SocketAddr,
    other: SocketAddr,
    payload: Seq<u8>,
    now: u64,
)
    requires
        other != target,
    ensures
        t.with_buffered(target, payload, now).encoder_of(other) == t.encoder_of(other),
        t.with_sent(target).encoder_of(other) == t.encoder_of(other),
        t.with_refused(target).encoder_of(other) == t.encoder_of(other),
        t.with_buffered(target, payload, now).pending.contains_key(other)
            == t.pending.contains_key(other),
        t.with_sent(target).pending.contains_key(other) == t.pending.contains_key(other),
        t.pending.contains_key(other) ==> t.with_buffered(
            target,
            payload,
            now,
        ).pending[other] == t.pending[other] && t.with_sent(target).pending[other]
            == t.pending[other],
{
}

/// A block that was sent is not overdue any more, and one that waits is overdue once its time
/// has passed.
pub proof fn law_flush_settles(t: TransportState, target: SocketAddr, payload: Seq<u8>, now: u64, later: u64)
    ensures
        !t.with_sent(target).overdue(target, later),
        t.with_buffered(target, payload, now).overdue(target, later) <==> later - now >= 50_000_000,
{
}

/// A block that is sent before it is full delivers just the payloads that waited.
pub proof fn law_flush_delivers_what_waited(pending: Seq<Seq<u8>>, data: nat)
    requires
        pending.len() <= data,
    ensures
        delivered(filled_up(pending, data)) == delivered(pending),
    decreases data - pending.len(),
{
    reveal(Seq::filter);
    if pending.len() == data {
        assert(filled_up(pending, data) =~= pending);
    } else {
        let less = (data - 1) as nat;
        law_flush_delivers_what_waited(pending, less);
        assert(filled_up(pending, data).drop_last() =~= filled_up(pending, less));
    }
}

/// Every packet of a block fits the buffer into which it is received.
pub proof fn law_packets_fit_the_buffer(block_id: u32, payloads: Seq<Seq<u8>>, parity: nat, i: int)
    requires
        well_coded(payloads, parity),
        0 <= i < payloads.len() + parity,
    ensures
        block_packets(block_id, payloads, parity)[i].len() <= RECV_BUFFER_LEN,
{
    lemma_longest(payloads);
    lemma_be_bytes_len(block_id as nat, 4);
    lemma_be_bytes_len(shards_of(payloads, parity)[i].len(), 2);
    assert(shards_of(payloads, parity)[i].len() == 2 + longest(payloads));
}

/// What stands where in a packet: the number of the block in four bytes, the place of the shard,
/// the numbers of data and of parity shards in one byte each, the length of the shard in two
/// bytes, and the shard.
#[verifier::rlimit(60)]
pub proof fn law_packet_layout(block_id: u32, index: nat, data: nat, parity: nat, shard: Seq<u8>)
    requires
        index <= 255,
        data <= 255,
        parity <= 255,
        shard.len() <= 65535,
    ensures
        ({
            let p = packet_bytes(block_id, index, data, parity, shard);
            &&& p.len() == 9 + shard.len()
            &&& p[0] * 0x100_0000 + p[1] * 0x1_0000 + p[2] * 0x100 + p[3] == block_id
            &&& p[4] == index
            &&& p[5] == data
            &&& p[6] == parity
            &&& p[7] * 256 + p[8] == shard.len()
            &&& p.skip(9) == shard
        }),
{
    lemma_be_bytes_small(block_id as nat);
    lemma_be_bytes_small(shard.len());
    assert(packet_bytes(block_id, index, data, parity, shard).skip(9) =~= shard);
}

/// What is read from any datagram at all. One with a whole header that speaks of at least one
/// data and one parity shard is read, whatever length its header states, and what is read is
/// what stands there; the shard is all that follows the header. No other one is.
#[verifier::rlimit(60)]
pub proof fn law_packets_are_read_as_they_stand(raw: Seq<u8>)
    ensures
        parse_packet(raw) is Some <==> raw.len() >= 9 && raw[5] != 0 && raw[6] != 0,
        parse_packet(raw) matches Some(p) ==> {
            &&& p.block_id == raw[0] * 0x100_0000 + raw[1] * 0x1_0000 + raw[2] * 0x100 + raw[3]
            &&& p.index == raw[4]
            &&& p.data == raw[5]
            &&& p.parity == raw[6]
            &&& p.shard.len() == raw.len() - 9
            &&& forall|i: int| 0 <= i < p.shard.len() ==> p.shard[i] == raw[9 + i]
        },
{
    if raw.len() >= 9 {
        lemma_be_small(raw.take(4));
    }
}

/// A byte string that is brought to a length keeps what fits, and is filled up with zeros.
pub proof fn law_resized_bytes(s: Seq<u8>, len: nat, i: int)
    ensures
        resized(s, len).len() == len,
        0 <= i < len && i < s.len() ==> resized(s, len)[i] == s[i],
        s.len() <= i < len ==> resized(s, len)[i] == 0,
{
}

/// The data shards of a block. There is one for each payload, and all are two bytes longer than
/// the longest payload. Each begins with the length of its payload in two bytes, then comes the
/// payload, and then only zeros. They go out as they are, in front of the parity shards, in
/// packets with the number of the block, their own place, and the numbers of shards.
#[verifier::rlimit(60)]
pub proof fn law_blocks_carry_their_payloads(
    block_id: u32,
    payloads: Seq<Seq<u8>>,
    parity: nat,
    i: int,
)
    requires
        well_coded(payloads, parity),
        0 <= i < payloads.len() + parity,
    ensures
        ({
            let packets = block_packets(block_id, payloads, parity);
            let p = parse_packet(packets[i]);
            &&& packets.len() == payloads.len() + parity
            &&& p is Some
            &&& p->0.block_id == block_id
            &&& p->0.index == i
            &&& p->0.data == payloads.len()
            &&& p->0.parity == parity
            &&& exists|k: int|
                0 <= k < payloads.len() && p->0.shard.len() == 2 + (#[trigger] payloads[k]).len()
            &&& forall|k: int|
                0 <= k < payloads.len() ==> 2 + (#[trigger] payloads[k]).len() <= p->0.shard.len()
            &&& i < payloads.len() ==> {
                let shard = p->0.shard;
                let n = payloads[i].len() as int;
                &&& shard[0] * 256 + shard[1] == n
                &&& shard.subrange(2, 2 + n) == payloads[i]
                &&& forall|j: int| 2 + n <= j < shard.len() ==> #[trigger] shard[j] == 0
            }
            &&& i >= payloads.len() ==> p->0.shard == rs_parity(data_shards_of(payloads), parity)[i
                - payloads.len()]
        }),
{
    let shard = shards_of(payloads, parity)[i];
    law_packet_roundtrip(block_id, i as nat, payloads.len(), parity, shard);
    assert(shard.len() == 2 + longest(payloads));
    lemma_longest(payloads);
    let k = lemma_longest_is_one(payloads);
    assert(shard.len() == 2 + payloads[k].len());
    if i < payloads.len() {
        let n = payloads[i].len();
        lemma_be_bytes_small(n);
        assert(payloads[i].len() <= longest(payloads));
        assert(shard == data_shards_of(payloads)[i]);
        assert(shard.subrange(2, 2 + n as int) =~= payloads[i]);
    }
}

/// The longest payload is one of them.
proof fn lemma_longest_is_one(payloads: Seq<Seq<u8>>) -> (k: int)
    requires
        payloads.len() > 0,
    ensures
        0 <= k < payloads.len(),
        payloads[k].len() == longest(payloads),
    decreases payloads.len(),
{
    let rest = payloads.drop_last();
    if rest.len() > 0 && payloads.last().len() <= longest(rest) {
        let k = lemma_longest_is_one(rest);
        assert(rest[k] == payloads[k]);
        k
    } else {
        if rest.len() == 0 {
            assert(longest(rest) == 0);
        }
        payloads.len() - 1
    }
}

/// A block that is sent before it is full holds the payloads that wait, and behind them only
/// empty ones, as many as it takes.
pub proof fn law_blocks_are_filled_up(pending: Seq<Seq<u8>>, data: nat, i: int)
    requires
        pending.len() <= data,
        0 <= i < data,
    ensures
        filled_up(pending, data).len() == data,
        i < pending.len() ==> filled_up(pending, data)[i] == pending[i],
        i >= pending.len() ==> filled_up(pending, data)[i].len() == 0,
{
}

/// What any data shard gives. Its first two bytes say how long the payload is; where they say
/// zero, or are not there, there is none. A payload that should be longer than the shard ends
/// with it. The payloads of shards are those of each, in order.
#[verifier::rlimit(60)]
pub proof fn law_shards_give_their_payloads(shard: Seq<u8>, a: Seq<Seq<u8>>, b: Seq<Seq<u8>>)
    ensures
        ({
            let stated = if shard.len() >= 2 {
                shard[0] * 256 + shard[1]
            } else {
                0
            };
            let n = if stated <= shard.len() - 2 {
                stated
            } else {
                shard.len() - 2
            };
            match shard_payload(shard) {
                None => stated == 0,
                Some(payload) => stated > 0 && payload.len() == n && forall|i: int|
                    0 <= i < n ==> payload[i] == shard[2 + i],
            }
        }),
        shard_payloads(a + b) == shard_payloads(a) + shard_payloads(b),
        shard_payloads(seq![shard]) == match shard_payload(shard) {
            Some(payload) => seq![payload],
            None => Seq::empty(),
        },
    decreases b.len(),
{
    if shard.len() >= 2 {
        lemma_be_small(shard.take(2));
    }
    reveal_with_fuel(shard_payloads, 2);
    let one = seq![shard];
    assert(one.drop_last() =~= Seq::empty());
    assert(shard_payloads(one) =~= match shard_payload(shard) {
        Some(payload) => seq![payload],
        None => Seq::empty(),
    });
    if b.len() == 0 {
        assert(a + b =~= a);
        assert(shard_payloads(a) + shard_payloads(b) =~= shard_payloads(a));
    } else {
        law_shards_give_their_payloads(shard, a, b.drop_last());
        assert((a + b).drop_last() =~= a + b.drop_last());
        assert(shard_payloads(a + b) =~= shard_payloads(a) + shard_payloads(b));
    }
}

/// What a block makes of any shard. One whose place the block does not have, or that is there
/// already, changes nothing. Another one is put in its place, brought to the length of the one
/// that came first, and no other place changes. The block is complete once as many shards are
/// there as it has data shards.
pub proof fn law_shards_are_collected(b: BlockState, index: nat, shard: Seq<u8>, i: int)
    requires
        b.wf(),
    ensures
        ({
            let after = b.with(index, shard);
            let taken = index < b.data + b.parity && b.shards[index as int] is None;
            let size = if b.size is Some {
                b.size->0
            } else {
                shard.len()
            };
            &&& after.data == b.data && after.parity == b.parity
            &&& after.shards.len() == b.shards.len()
            &&& !taken ==> after == b
            &&& taken ==> {
                &&& after.size == Some(size)
                &&& after.shards[index as int] == Some(resized(shard, size))
            }
            &&& 0 <= i < b.shards.len() && i != index ==> after.shards[i] == b.shards[i]
        }),
        b.complete() <==> b.shards.filter(|s: Option<Seq<u8>>| s is Some).len() >= b.data,
{
    lemma_present_filter(b.shards);
}

/// A block of which nothing has arrived has a place for each shard, and nothing in any.
pub proof fn law_fresh_blocks_are_empty(data: nat, parity: nat, i: int)
    ensures
        ({
            let b = BlockState::fresh(data, parity);
            &&& b.data == data && b.parity == parity
            &&& b.size is None
            &&& b.shards.len() == data + parity
            &&& 0 <= i < data + parity ==> b.shards[i] is None
        }),
{
}

/// The shards that are there are counted.
proof fn lemma_present_filter(shards: Seq<Option<Seq<u8>>>)
    ensures
        present_count(shards) == shards.filter(|s: Option<Seq<u8>>| s is Some).len(),
    decreases shards.len(),
{
    reveal(Seq::filter);
    if shards.len() > 0 {
        lemma_present_filter(shards.drop_last());
    }
}

/// The payloads that a block gives. There are none while it is not complete, or where no code
/// has its numbers of shards. Where all data shards arrived they are those of the data shards
/// as they arrived; where some are missing, those of the shards that the code recovers, unless
/// the shards are empty.
pub proof fn law_blocks_give_their_payloads(b: BlockState)
    ensures
        ({
            let whole = forall|i: int| 0 <= i < b.data ==> (#[trigger] b.shards[i]) is Some;
            let usable = b.complete() && b.data > 0 && b.parity > 0 && b.data + b.parity <= 256;
            &&& !usable ==> b.payloads() is None
            &&& usable && whole ==> b.payloads() == Some(
                shard_payloads(Seq::new(b.data, |i: int| b.shards[i]->0)),
            )
            &&& usable && !whole && b.size == Some(0nat) ==> b.payloads() is None
            &&& usable && !whole && b.size != Some(0nat) ==> b.payloads() == Some(
                shard_payloads(rs_recover(b.data, b.parity, b.shards).take(b.data as int)),
            )
        }),
{
}

/// What a decoder makes of any datagram. One that is no packet, or whose block is done, changes
/// nothing. Another one goes to its block, a new one where there is none. A block that is
/// complete with it is done: its payloads become ready behind those that wait, with their
/// sender. One that is not stays in progress, and nothing becomes ready. Other blocks stay as
/// they are, or are forgotten.
#[verifier::rlimit(60)]
pub proof fn law_packets_go_to_their_block(
    s: DecoderState,
    raw: Seq<u8>,
    addr: SocketAddr,
    other: BlockKey,
)
    requires
        s.bounded(),
    ensures
        ({
            let after = s.fed(raw, addr);
            match parse_packet(raw) {
                None => after == s,
                Some(p) => {
                    let key = BlockKey { addr, block_id: p.block_id };
                    let before = if s.blocks.contains_key(key) {
                        s.blocks[key]
                    } else {
                        BlockState::fresh(p.data, p.parity)
                    };
                    let block = before.with(p.index, p.shard);
                    if s.completed.contains(key) {
                        after == s
                    } else if block.complete() {
                        &&& after.completed.contains(key)
                        &&& !after.blocks.contains_key(key)
                        &&& s.ready.is_prefix_of(after.ready)
                        &&& match block.payloads() {
                            Some(payloads) => {
                                &&& after.ready.len() == s.ready.len() + payloads.len()
                                &&& forall|i: int|
                                    0 <= i < payloads.len() ==> after.ready[s.ready.len() + i] == (
                                        #[trigger] payloads[i],
                                        addr,
                                    )
                            },
                            None => after.ready == s.ready,
                        }
                    } else {
                        &&& !after.completed.contains(key)
                        &&& after.blocks.contains_key(key) && after.blocks[key] == block
                        &&& after.ready == s.ready
                    }
                },
            }
        }),
        !belongs_to(raw, addr, other) && s.fed(raw, addr).blocks.contains_key(other)
            ==> s.blocks.contains_key(other) && s.fed(raw, addr).blocks[other] == s.blocks[other],
        !belongs_to(raw, addr, other) && s.fed(raw, addr).completed.contains(other)
            ==> s.completed.contains(other),
{
    if let Some(p) = parse_packet(raw) {
        let key = BlockKey { addr, block_id: p.block_id };
        let block = s.block_at(key, p.data, p.parity).with(p.index, p.shard);
        lemma_settled_len(s.noted(key), key, block);
        lemma_evicted(s.noted(key).settled(key, block), key);
    }
}

/// The newest block of a sender is that of the latest packet which lies ahead of it by less than
/// half of the circle of 32-bit numbers; it never goes back. Sender by sender it starts at zero,
/// and the packets of one do not move that of another.
pub proof fn law_the_newest_block_moves_forward(
    s: DecoderState,
    raw: Seq<u8>,
    addr: SocketAddr,
    other: SocketAddr,
)
    requires
        parse_packet(raw) is Some,
        !s.completed.contains(BlockKey { addr, block_id: parse_packet(raw)->0.block_id }),
    ensures
        ({
            let id = parse_packet(raw)->0.block_id;
            let newest = if s.max_block_ids.contains_key(addr) {
                s.max_block_ids[addr]
            } else {
                0
            };
            let after = s.fed(raw, addr).max_block_ids;
            &&& after.contains_key(addr)
            &&& after[addr] == if (id - newest) % 0x1_0000_0000 < 0x7fff_ffff {
                id
            } else {
                newest
            }
            &&& other != addr ==> (after.contains_key(other) <==> s.max_block_ids.contains_key(
                other,
            ))
            &&& other != addr && after.contains_key(other) ==> after[other]
                == s.max_block_ids[other]
        }),
{
}

/// How far behind the newest block of its sender a block lies, in the circle of 32-bit numbers.
#[verifier::opaque]
spec fn behind(newest_ids: Map<SocketAddr, u32>, key: BlockKey) -> int {
    (newest_of(newest_ids, key.addr) - key.block_id) % 0x1_0000_0000
}

/// How far ahead of the newest block of its sender a block lies, in the circle of 32-bit numbers.
#[verifier::opaque]
spec fn ahead(newest_ids: Map<SocketAddr, u32>, key: BlockKey) -> int {
    (key.block_id - newest_of(newest_ids, key.addr)) % 0x1_0000_0000
}

/// How far a block lies behind or ahead, in numbers.
proof fn lemma_how_far(ids: Map<SocketAddr, u32>, key: BlockKey)
    ensures
        ({
            let newest = if ids.contains_key(key.addr) {
                ids[key.addr]
            } else {
                0
            };
            &&& behind(ids, key) == (newest - key.block_id) % 0x1_0000_0000
            &&& ahead(ids, key) == (key.block_id - newest) % 0x1_0000_0000
        }),
{
    reveal(behind);
    reveal(ahead);
}

/// Which blocks in progress are forgotten, once there are too many. If any is, then of all
/// blocks but that of the packet only those remain that lie up to 128 behind the newest one of
/// their sender or less than 128 ahead of it. And one of those is forgotten only in favour of
/// blocks that do not lie further behind.
#[verifier::rlimit(60)]
pub proof fn law_old_blocks_are_forgotten_first(
    s: DecoderState,
    raw: Seq<u8>,
    addr: SocketAddr,
    gone: BlockKey,
    kept: BlockKey,
)
    requires
        s.bounded(),
        parse_packet(raw) is Some,
        ({
            let cause = BlockKey { addr, block_id: parse_packet(raw)->0.block_id };
            let after = s.fed(raw, addr);
            &&& gone != cause && s.blocks.contains_key(gone) && !after.blocks.contains_key(gone)
            &&& kept != cause && after.blocks.contains_key(kept)
        }),
    ensures
        ({
            let newest = s.fed(raw, addr).max_block_ids;
            let of_gone = if newest.contains_key(gone.addr) {
                newest[gone.addr]
            } else {
                0
            };
            let of_kept = if newest.contains_key(kept.addr) {
                newest[kept.addr]
            } else {
                0
            };
            let kept_behind = (of_kept - kept.block_id) % 0x1_0000_0000;
            let gone_behind = (of_gone - gone.block_id) % 0x1_0000_0000;
            let kept_ahead = (kept.block_id - of_kept) % 0x1_0000_0000;
            let gone_ahead = (gone.block_id - of_gone) % 0x1_0000_0000;
            &&& s.blocks.dom().len() == 256
            &&& kept_behind <= 128 || kept_ahead < 128
            &&& gone_behind <= 128 || gone_ahead < 128 ==> kept_behind <= gone_behind
        }),
{
    let p = parse_packet(raw)->0;
    let cause = BlockKey { addr, block_id: p.block_id };
    let block = s.block_at(cause, p.data, p.parity).with(p.index, p.shard);
    let full = s.noted(cause).settled(cause, block);
    assert(!s.completed.contains(cause));
    assert(s.fed(raw, addr) == full.evicted(cause));
    lemma_settled_len(s.noted(cause), cause, block);
    lemma_evicted(full, cause);
    let ids = full.max_block_ids;
    assert(full.blocks.dom().contains(gone));
    assert(full.blocks.dom().contains(kept));
    lemma_trimmed_order(ids, full.blocks.dom(), 256, 128, cause, gone, kept);
    lemma_how_far(ids, gone);
    lemma_how_far(ids, kept);
    assert(s.blocks.dom().len() == 256);
}

/// Which blocks that are done are forgotten, once there are too many: in the same way, but up to
/// 256 behind the newest one and less than 256 ahead of it remain.
#[verifier::rlimit(60)]
pub proof fn law_old_done_blocks_are_forgotten_first(
    s: DecoderState,
    raw: Seq<u8>,
    addr: SocketAddr,
    gone: BlockKey,
    kept: BlockKey,
)
    requires
        s.bounded(),
        parse_packet(raw) is Some,
        ({
            let cause = BlockKey { addr, block_id: parse_packet(raw)->0.block_id };
            let after = s.fed(raw, addr);
            &&& gone != cause && s.completed.contains(gone) && !after.completed.contains(gone)
            &&& kept != cause && after.completed.contains(kept)
        }),
    ensures
        ({
            let newest = s.fed(raw, addr).max_block_ids;
            let of_gone = if newest.contains_key(gone.addr) {
                newest[gone.addr]
            } else {
                0
            };
            let of_kept = if newest.contains_key(kept.addr) {
                newest[kept.addr]
            } else {
                0
            };
            let kept_behind = (of_kept - kept.block_id) % 0x1_0000_0000;
            let gone_behind = (of_gone - gone.block_id) % 0x1_0000_0000;
            let kept_ahead = (kept.block_id - of_kept) % 0x1_0000_0000;
            let gone_ahead = (gone.block_id - of_gone) % 0x1_0000_0000;
            &&& s.completed.len() == 512
            &&& kept_behind <= 256 || kept_ahead < 256
            &&& gone_behind <= 256 || gone_ahead < 256 ==> kept_behind <= gone_behind
        }),
{
    let p = parse_packet(raw)->0;
    let cause = BlockKey { addr, block_id: p.block_id };
    let block = s.block_at(cause, p.data, p.parity).with(p.index, p.shard);
    let full = s.noted(cause).settled(cause, block);
    assert(!s.completed.contains(cause));
    assert(s.fed(raw, addr) == full.evicted(cause));
    lemma_settled_len(s.noted(cause), cause, block);
    lemma_evicted(full, cause);
    let ids = full.max_block_ids;
    assert(full.completed.contains(gone));
    assert(full.completed.contains(kept));
    lemma_trimmed_order(ids, full.completed, 512, 256, cause, gone, kept);
    lemma_how_far(ids, gone);
    lemma_how_far(ids, kept);
    assert(s.completed.len() == 512);
}

/// What is dropped from a set of keys lies further behind than what is kept.
#[verifier::rlimit(60)]
proof fn lemma_trimmed_order(
    ids: Map<SocketAddr, u32>,
    keys: Set<BlockKey>,
    limit: u32,
    back: u32,
    spare: BlockKey,
    gone: BlockKey,
    kept: BlockKey,
)
    requires
        keys.finite(),
        0 < back < limit == 2 * back,
        keys.contains(gone) && !trimmed(ids, keys, limit as nat, back, spare).contains(gone),
        trimmed(ids, keys, limit as nat, back, spare).contains(kept) && kept != spare,
        gone != spare,
    ensures
        keys.len() > limit,
        behind(ids, kept) <= back || ahead(ids, kept) < back,
        behind(ids, gone) <= back || ahead(ids, gone) < back ==> behind(ids, kept) <= behind(
            ids,
            gone,
        ),
{
    let near = keys.filter(|k: BlockKey| near_newest(ids, k, limit as nat, back, spare));
    assert(near_newest(ids, kept, limit as nat, back, spare));
    lemma_lies_near(ids, kept, limit, back);
    lemma_lies_near(ids, gone, limit, back);
    if near.contains(gone) {
        lemma_len_subset(near, keys);
        assert(near.remove(spare).len() > 0);
        lemma_some_stalest(ids, near, spare);
        let old = choose|k: BlockKey| is_stalest(ids, near, spare, k);
        assert(gone == old);
        assert(near.contains(kept));
        assert(staler(ids, gone, kept));
    }
}

/// To lie in the window is to lie near the newest block.
proof fn lemma_lies_near(ids: Map<SocketAddr, u32>, key: BlockKey, limit: u32, back: u32)
    requires
        0 < back < limit == 2 * back,
    ensures
        behind(ids, key) <= back || ahead(ids, key) < back <==> in_window(
            key.block_id,
            newest_of(ids, key.addr),
            back,
            limit,
        ),
        behind(ids, key) == age(ids, key),
{
    reveal(behind);
    reveal(ahead);
}

/// What a transport holds for a target after each thing that can happen. A payload that does not
/// fill a block waits behind the others, from now on. Once a block has gone out nothing waits,
/// and the next block has the next number. A payload that is refused changes nothing of this.
/// What was received is not touched. A target that nothing was sent to starts with block zero.
pub proof fn law_targets_fill_their_blocks(
    t: TransportState,
    target: SocketAddr,
    payload: Seq<u8>,
    now: u64,
)
    ensures
        !t.encoders.contains_key(target) ==> t.encoder_of(target).block_id == 0 && t.encoder_of(
            target,
        ).pending.len() == 0,
        t.encoders.contains_key(target) ==> t.encoder_of(target) == t.encoders[target],
        ({
            let e = t.encoder_of(target);
            let buffered = t.with_buffered(target, payload, now);
            let sent = t.with_sent(target);
            let refused = t.with_refused(target);
            &&& buffered.encoder_of(target).block_id == e.block_id
            &&& buffered.encoder_of(target).pending == e.pending + seq![payload]
            &&& buffered.pending.contains_key(target) && buffered.pending[target] == now
            &&& sent.encoder_of(target).block_id as int == (e.block_id + 1) % 0x1_0000_0000
            &&& sent.encoder_of(target).pending.len() == 0
            &&& !sent.pending.contains_key(target)
            &&& refused.encoder_of(target) == e
            &&& refused.pending == t.pending
            &&& buffered.decoder == t.decoder && sent.decoder == t.decoder && refused.decoder
                == t.decoder
        }),
{
    assert(t.encoder_of(target).pending.push(payload) =~= t.encoder_of(target).pending
        + seq![payload]);
}

/// How long to wait: no block becomes overdue before that time has passed, and once it has, one
/// is.
pub proof fn law_the_first_block_sets_the_time(
    t: TransportState,
    now: u64,
    left: u128,
    a: SocketAddr,
    then: u64,
)
    requires
        t.next_flush(now, left),
    ensures
        t.pending.contains_key(a) && now <= then < now + left ==> !t.overdue(a, then),
        then >= now + left ==> exists|b: SocketAddr| #[trigger] t.overdue(b, then),
        left > 0 ==> exists|b: SocketAddr| #[trigger]
            t.pending.contains_key(b) && t.pending[b] + 50_000_000 == now + left,
        t.overdue(a, then) <==> t.pending.contains_key(a) && then - t.pending[a] >= 50_000_000,
{
    let first = choose|first: SocketAddr|
        {
            &&& #[trigger] t.pending.contains_key(first)
            &&& forall|a: SocketAddr| #[trigger]
                t.pending.contains_key(a) ==> t.pending[first] <= t.pending[a]
            &&& left == if t.pending[first] + FLUSH_TIMEOUT >= now {
                t.pending[first] + FLUSH_TIMEOUT - now
            } else {
                0
            }
        };
    if then >= now + left {
        assert(t.overdue(first, then));
    }
}

/// What is seen of a block, an encoder, a decoder and a transport is all that they hold.
pub proof fn law_blocks_are_seen_whole(
    b: FecBlock,
    e: FecEncoder,
    d: FecDecoder,
    t: FecTransport,
    i: int,
    key: BlockKey,
    addr: SocketAddr,
)
    ensures
        b@.data == b.data_shards && b@.parity == b.parity_shards,
        b@.size is Some <==> b.shard_size is Some,
        b.shard_size is Some ==> b@.size == Some(b.shard_size->0 as nat),
        b@.shards.len() == b.shards@.len(),
        0 <= i < b.shards@.len() ==> (b@.shards[i] is Some <==> b.shards@[i] is Some),
        0 <= i < b.shards@.len() && b.shards@[i] is Some ==> b@.shards[i] == Some(b.shards@[i]->0@),
        e@.block_id == e.block_id,
        e@.pending.len() == e.shard_buf@.len(),
        0 <= i < e.shard_buf@.len() ==> e@.pending[i] == e.shard_buf@[i]@,
        d@.ready.len() == d.ready@.len(),
        0 <= i < d.ready@.len() ==> d@.ready[i] == (d.ready@[i].0@, d.ready@[i].1),
        d@.max_block_ids == d.max_block_ids@,
        d@.completed.contains(key) <==> d.completed@.contains_key(key),
        d@.blocks.contains_key(key) <==> d.blocks@.contains_key(key),
        d.blocks@.contains_key(key) ==> d@.blocks[key] == d.blocks@[key]@,
        t@.decoder == t.decoder@,
        t@.pending == t.pending_flush@,
        t@.encoders.contains_key(addr) <==> t.encoders@.contains_key(addr),
        t.encoders@.contains_key(addr) ==> t@.encoders[addr] == t.encoders@[addr]@,
{
}

/// A block can be coded exactly if it has at least one data and one parity shard and no more than
/// 256 shards in all, and its payloads fit exactly if none is longer than 1500 bytes.
pub proof fn law_limits_of_blocks(data: nat, parity: nat, payloads: Seq<Seq<u8>>)
    ensures
        code_supported(data, parity) <==> data >= 1 && parity >= 1 && data + parity <= 256,
        payloads_fit(payloads) <==> forall|i: int|
            0 <= i < payloads.len() ==> (#[trigger] payloads[i]).len() <= 1500,
        well_coded(payloads, parity) ==> code_supported(payloads.len(), parity) && payloads_fit(
            payloads,
        ),
{
}

/// Shards are seen as their contents, each in its place, and missing ones as missing.
pub proof fn law_shards_are_seen_whole(
    shards: Seq<Vec<u8>>,
    partial: Seq<Option<Vec<u8>>>,
    i: int,
)
    ensures
        shard_views(shards).len() == shards.len(),
        0 <= i < shards.len() ==> shard_views(shards)[i] == shards[i]@,
        partial_views(partial).len() == partial.len(),
        0 <= i < partial.len() ==> (partial_views(partial)[i] is Some <==> partial[i] is Some),
        0 <= i < partial.len() && partial[i] is Some ==> partial_views(partial)[i] == Some(
            partial[i]->0@,
        ),
{
}

/// An encoder after it took payloads one after another.
pub open spec fn encoder_after(
    e: EncoderState,
    payloads: Seq<Seq<u8>>,
    data: nat,
    parity: nat,
) -> EncoderState
    decreases payloads.len(),
{
    if payloads.len() == 0 {
        e
    } else {
        payload_taken(
            encoder_after(e, payloads.drop_last(), data, parity),
            payloads.last(),
            data,
            parity,
        ).0
    }
}

/// Payloads go out in blocks: while there are fewer than a block takes, they wait, in order, and
/// nothing goes out; with the last one all of them go out, as the packets of a block with the
/// next number, and nothing waits.
pub proof fn law_payloads_go_out_in_blocks(
    e: EncoderState,
    payloads: Seq<Seq<u8>>,
    last: Seq<u8>,
    data: nat,
    parity: nat,
)
    requires
        e.pending.len() == 0,
        payloads.len() < data,
    ensures
        ({
            let waiting = encoder_after(e, payloads, data, parity);
            let (after, out) = payload_taken(waiting, last, data, parity);
            &&& waiting.block_id == e.block_id
            &&& waiting.pending == payloads
            &&& payloads.len() + 1 < data ==> out is None
            &&& payloads.len() + 1 == data ==> {
                &&& out == Some(block_packets(e.block_id, payloads.push(last), parity))
                &&& after.pending.len() == 0
                &&& after.block_id as int == (e.block_id + 1) % 0x1_0000_0000
            }
        }),
    decreases payloads.len(),
{
    if payloads.len() == 0 {
        assert(e.pending =~= payloads);
    } else {
        law_payloads_go_out_in_blocks(e, payloads.drop_last(), payloads.last(), data, parity);
        assert(payloads.drop_last().push(payloads.last()) =~= payloads);
    }
}

/// Datagrams that are ready are taken in the order in which they became so, each once, and
/// nothing else changes.
pub proof fn law_ready_datagrams_are_taken_in_order(s: DecoderState, i: int)
    ensures
        ({
            let (after, taken) = s.popped();
            &&& taken is None <==> s.ready.len() == 0
            &&& taken is None ==> after == s
            &&& taken is Some ==> {
                &&& taken->0 == s.ready[0]
                &&& after.ready.len() == s.ready.len() - 1
                &&& 0 <= i < after.ready.len() ==> after.ready[i] == s.ready[i + 1]
            }
            &&& after.blocks == s.blocks && after.completed == s.completed && after.max_block_ids
                == s.max_block_ids
        }),
{
}

} // verus!
