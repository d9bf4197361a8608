//! The receiving side of forward error correction.

use crate::addr::{
    law_endpoint_order_is_total, law_endpoint_order_is_transitive, SocketAddr,
};
use crate::fec::block::{BlockState, FecBlock};
use crate::fec::codec::shard_views;
use crate::fec::encoder::FEC_HEADER_SIZE;
use crate::vec_map::{has_key, lemma_entries_map, Key, VecMap};
use crate::wire::{be_value, copy_range, read_u32};
use std::collections::VecDeque;
use vstd::prelude::*;
use vstd::set_lib::lemma_len_subset;

verus! {

/// Identifies a block: many senders number their blocks from zero, so the number alone
/// would mix up the shards of two of them.
#[derive(Debug, Clone, Copy, PartialEq, Eq, Hash, Structural)]
pub struct BlockKey {
    /// The sender.
    pub addr: SocketAddr,
    /// The number of the block.
    pub block_id: u32,
}

impl Key for BlockKey {
    fn same(&self, other: &Self) -> (b: bool) {
        *self == *other
    }
}

/// The packet in a datagram.
pub struct PacketState {
    /// The number of the block.
    pub block_id: u32,
    /// The place of the shard in the block.
    pub index: nat,
    /// Number of data shards of the block.
    pub data: nat,
    /// Number of parity shards of the block.
    pub parity: nat,
    /// The shard.
    pub shard: Seq<u8>,
}

/// Reads a datagram. It must have a header and speak of at least one data and one parity
/// shard. The length in the header is not looked at: the datagram's own length counts.
pub open spec fn parse_packet(raw: Seq<u8>) -> Option<PacketState> {
    if raw.len() < FEC_HEADER_SIZE || raw[5] == 0 || raw[6] == 0 {
        None
    } else {
        Some(
            PacketState {
                block_id: be_value(raw.take(4)) as u32,
                index: raw[4] as nat,
                data: raw[5] as nat,
                parity: raw[6] as nat,
                shard: raw.skip(FEC_HEADER_SIZE as int),
            },
        )
    }
}

/// What a decoder holds.
#[verifier::ext_equal]
pub struct DecoderState {
    /// The blocks of which too little has arrived.
    pub blocks: Map<BlockKey, BlockState>,
    /// The datagrams that wait to be taken, with their senders.
    pub ready: Seq<(Seq<u8>, SocketAddr)>,
    /// The newest block of each sender.
    pub max_block_ids: Map<SocketAddr, u32>,
    /// The blocks that are done.
    pub completed: Set<BlockKey>,
}

/// `id` is one of the `width` numbers from `newest - back` on, in the circle of 32-bit
/// numbers.
pub open spec fn in_window(id: u32, newest: u32, back: u32, width: u32) -> bool {
    id.wrapping_sub(newest.wrapping_sub(back)) < width
}

/// The newest block of a sender, zero where none is known.
pub open spec fn newest_of(max_block_ids: Map<SocketAddr, u32>, addr: SocketAddr) -> u32 {
    if max_block_ids.contains_key(addr) {
        max_block_ids[addr]
    } else {
        0
    }
}

/// Payloads together with their sender.
pub open spec fn with_sender(payloads: Seq<Seq<u8>>, addr: SocketAddr) -> Seq<
    (Seq<u8>, SocketAddr),
> {
    Seq::new(payloads.len(), |i: int| (payloads[i], addr))
}

/// The most blocks in progress that a decoder keeps.
pub const MAX_BLOCKS: usize = 256;

/// The most blocks that are done that a decoder remembers.
pub const MAX_COMPLETED: usize = 512;

/// How far a block lies behind the newest one of its sender.
pub open spec fn age(max_block_ids: Map<SocketAddr, u32>, key: BlockKey) -> u32 {
    newest_of(max_block_ids, key.addr).wrapping_sub(key.block_id)
}

/// `a` is forgotten before `b`: it lies further behind. Between senders, the order of their
/// endpoints decides.
pub open spec fn staler(max_block_ids: Map<SocketAddr, u32>, a: BlockKey, b: BlockKey) -> bool {
    age(max_block_ids, a) > age(max_block_ids, b) || age(max_block_ids, a) == age(max_block_ids, b)
        && a.addr.precedes(b.addr)
}

/// Of all blocks but `spare`, `key` is the first to be forgotten.
pub open spec fn is_stalest(
    max_block_ids: Map<SocketAddr, u32>,
    keys: Set<BlockKey>,
    spare: BlockKey,
    key: BlockKey,
) -> bool {
    &&& keys.contains(key)
    &&& key != spare
    &&& forall|k: BlockKey| #[trigger]
        keys.contains(k) && k != spare && k != key ==> staler(max_block_ids, key, k)
}

/// The blocks that are left of `keys` when only `limit` can be kept. Once there are more,
/// those outside the window of their sender are forgotten, and if that is not enough, the
/// one that lies furthest behind. The block `spare` stays.
pub open spec fn trimmed(
    max_block_ids: Map<SocketAddr, u32>,
    keys: Set<BlockKey>,
    limit: nat,
    back: u32,
    spare: BlockKey,
) -> Set<BlockKey> {
    if keys.len() <= limit {
        keys
    } else {
        let near = keys.filter(|k: BlockKey| near_newest(max_block_ids, k, limit, back, spare));
        if near.len() <= limit {
            near
        } else {
            near.remove(choose|k: BlockKey| is_stalest(max_block_ids, near, spare, k))
        }
    }
}

/// A block lies in the window of its sender, or is the one to spare.
pub open spec fn near_newest(
    max_block_ids: Map<SocketAddr, u32>,
    key: BlockKey,
    limit: nat,
    back: u32,
    spare: BlockKey,
) -> bool {
    key == spare || in_window(
        key.block_id,
        newest_of(max_block_ids, key.addr),
        back,
        limit as u32,
    )
}

/// Of two blocks, one is forgotten before the other, and never both ways.
pub proof fn lemma_staler_is_total(ids: Map<SocketAddr, u32>, a: BlockKey, b: BlockKey)
    ensures
        a != b ==> staler(ids, a, b) || staler(ids, b, a),
        !(staler(ids, a, b) && staler(ids, b, a)),
{
    law_endpoint_order_is_total(a.addr, b.addr);
}

/// The order in which blocks are forgotten is transitive.
pub proof fn lemma_staler_is_transitive(
    ids: Map<SocketAddr, u32>,
    a: BlockKey,
    b: BlockKey,
    c: BlockKey,
)
    requires
        staler(ids, a, b),
        staler(ids, b, c),
    ensures
        staler(ids, a, c),
{
    if a.addr.precedes(b.addr) && b.addr.precedes(c.addr) {
        law_endpoint_order_is_transitive(a.addr, b.addr, c.addr);
    }
}

/// Only one block is the first to be forgotten.
pub proof fn lemma_stalest_is_unique(
    ids: Map<SocketAddr, u32>,
    keys: Set<BlockKey>,
    spare: BlockKey,
    a: BlockKey,
    b: BlockKey,
)
    requires
        is_stalest(ids, keys, spare, a),
        is_stalest(ids, keys, spare, b),
    ensures
        a == b,
{
    lemma_staler_is_total(ids, a, b);
}

/// Where there are two blocks, one is the first to be forgotten.
pub proof fn lemma_some_stalest(ids: Map<SocketAddr, u32>, keys: Set<BlockKey>, spare: BlockKey)
    requires
        keys.finite(),
        keys.remove(spare).len() > 0,
    ensures
        exists|k: BlockKey| is_stalest(ids, keys, spare, k),
    decreases keys.len(),
{
    let others = keys.remove(spare);
    let one = others.choose();
    assert(others.contains(one));
    let rest = keys.remove(one);
    assert(rest.remove(spare) =~= others.remove(one));
    if rest.remove(spare).len() > 0 {
        lemma_some_stalest(ids, rest, spare);
        let old = choose|k: BlockKey| is_stalest(ids, rest, spare, k);
        lemma_staler_is_total(ids, one, old);
        if staler(ids, one, old) {
            assert forall|k: BlockKey| #[trigger]
                keys.contains(k) && k != spare && k != one implies staler(ids, one, k) by {
                assert(rest.contains(k));
                if k != old {
                    lemma_staler_is_transitive(ids, one, old, k);
                }
            }
            assert(is_stalest(ids, keys, spare, one));
        } else {
            assert forall|k: BlockKey| #[trigger]
                keys.contains(k) && k != spare && k != old implies staler(ids, old, k) by {
                if k != one {
                    assert(rest.contains(k));
                }
            }
            assert(is_stalest(ids, keys, spare, old));
        }
    } else {
        assert forall|k: BlockKey| #[trigger]
            keys.contains(k) && k != spare && k != one implies staler(ids, one, k) by {
            assert(rest.remove(spare).contains(k));
            assert(rest.remove(spare) =~= Set::empty());
        }
        assert(is_stalest(ids, keys, spare, one));
    }
}

/// What is left fits the limit, if there was at most one too many, and it holds the block to
/// spare.
pub proof fn lemma_trimmed(
    ids: Map<SocketAddr, u32>,
    keys: Set<BlockKey>,
    limit: nat,
    back: u32,
    spare: BlockKey,
)
    requires
        keys.finite(),
        limit > 0,
    ensures
        trimmed(ids, keys, limit, back, spare).finite(),
        trimmed(ids, keys, limit, back, spare).subset_of(keys),
        keys.contains(spare) ==> trimmed(ids, keys, limit, back, spare).contains(spare),
        keys.len() <= limit + 1 ==> trimmed(ids, keys, limit, back, spare).len() <= limit,
{
    if keys.len() > limit {
        let near = keys.filter(|k: BlockKey| near_newest(ids, k, limit, back, spare));
        lemma_len_subset(near, keys);
        if near.len() > limit {
            assert(near.remove(spare).len() > 0);
            lemma_some_stalest(ids, near, spare);
            let old = choose|k: BlockKey| is_stalest(ids, near, spare, k);
            assert(near.remove(old).len() == near.len() - 1);
        }
    }
}

impl DecoderState {
    /// A decoder that has seen nothing.
    pub open spec fn fresh() -> DecoderState {
        DecoderState {
            blocks: Map::empty(),
            ready: Seq::empty(),
            max_block_ids: Map::empty(),
            completed: Set::empty(),
        }
    }

    /// No more blocks are kept than a decoder may keep, over all senders.
    pub open spec fn bounded(self) -> bool {
        &&& self.blocks.dom().finite()
        &&& self.blocks.dom().len() <= MAX_BLOCKS
        &&& self.completed.finite()
        &&& self.completed.len() <= MAX_COMPLETED
    }

    /// Forgets old blocks, once there are too many. The block `spare` stays.
    pub open spec fn evicted(self, spare: BlockKey) -> DecoderState {
        DecoderState {
            blocks: self.blocks.restrict(
                trimmed(self.max_block_ids, self.blocks.dom(), MAX_BLOCKS as nat, 128, spare),
            ),
            completed: trimmed(
                self.max_block_ids,
                self.completed,
                MAX_COMPLETED as nat,
                256,
                spare,
            ),
            ..self
        }
    }

    /// Takes note of a block number. The newest number moves forward by less than half the
    /// circle, and never back.
    pub open spec fn noted(self, key: BlockKey) -> DecoderState {
        let newest = newest_of(self.max_block_ids, key.addr);
        DecoderState {
            max_block_ids: self.max_block_ids.insert(
                key.addr,
                if key.block_id.wrapping_sub(newest) < u32::MAX / 2 {
                    key.block_id
                } else {
                    newest
                },
            ),
            ..self
        }
    }

    /// The block at `key` as far as it arrived, a fresh one where nothing did.
    pub open spec fn block_at(self, key: BlockKey, data: nat, parity: nat) -> BlockState {
        if self.blocks.contains_key(key) {
            self.blocks[key]
        } else {
            BlockState::fresh(data, parity)
        }
    }

    /// Puts a block back that took a shard: a complete one is done and its payloads are
    /// ready, another one stays.
    pub open spec fn settled(self, key: BlockKey, block: BlockState) -> DecoderState {
        if block.complete() {
            DecoderState {
                blocks: self.blocks.remove(key),
                completed: self.completed.insert(key),
                ready: self.ready + with_sender(
                    match block.payloads() {
                        Some(payloads) => payloads,
                        None => Seq::empty(),
                    },
                    key.addr,
                ),
                ..self
            }
        } else {
            DecoderState { blocks: self.blocks.insert(key, block), ..self }
        }
    }

    /// The decoder after a packet.
    pub open spec fn with_packet(self, packet: PacketState, addr: SocketAddr) -> DecoderState {
        let key = BlockKey { addr, block_id: packet.block_id };
        if self.completed.contains(key) {
            self
        } else {
            self.noted(key).settled(
                key,
                self.block_at(key, packet.data, packet.parity).with(packet.index, packet.shard),
            ).evicted(key)
        }
    }

    /// The datagram that has waited longest, and the decoder without it.
    pub open spec fn popped(self) -> (DecoderState, Option<(Seq<u8>, SocketAddr)>) {
        if self.ready.len() == 0 {
            (self, None)
        } else {
            (DecoderState { ready: self.ready.skip(1), ..self }, Some(self.ready[0]))
        }
    }

    /// The decoder after a datagram. One that is no packet changes nothing.
    pub open spec fn fed(self, raw: Seq<u8>, addr: SocketAddr) -> DecoderState {
        match parse_packet(raw) {
            Some(packet) => self.with_packet(packet, addr),
            None => self,
        }
    }
}

/// A packet adds at most one block, in progress or done.
pub proof fn lemma_settled_len(s: DecoderState, key: BlockKey, block: BlockState)
    requires
        s.blocks.dom().finite(),
        s.completed.finite(),
    ensures
        s.settled(key, block).blocks.dom().finite(),
        s.settled(key, block).completed.finite(),
        s.settled(key, block).blocks.dom().len() <= s.blocks.dom().len() + 1,
        s.settled(key, block).completed.len() <= s.completed.len() + 1,
{
    let after = s.settled(key, block);
    lemma_len_subset(after.blocks.dom(), s.blocks.dom().insert(key));
    lemma_len_subset(after.completed, s.completed.insert(key));
}

/// What waits to be taken.
pub open spec fn ready_views(ready: Seq<(Vec<u8>, SocketAddr)>) -> Seq<(Seq<u8>, SocketAddr)> {
    Seq::new(ready.len(), |i: int| (ready[i].0@, ready[i].1))
}

/// Reassembles blocks from the packets of many senders.
pub struct FecDecoder {
    /// The blocks of which too little has arrived.
    pub blocks: VecMap<BlockKey, FecBlock>,
    /// The datagrams that wait to be taken, with their senders.
    pub ready: VecDeque<(Vec<u8>, SocketAddr)>,
    /// The newest block of each sender.
    pub max_block_ids: VecMap<SocketAddr, u32>,
    /// The blocks that are done, so that late packets do not deliver them again.
    pub completed: VecMap<BlockKey, ()>,
}

impl View for FecDecoder {
    type V = DecoderState;

    open spec fn view(&self) -> DecoderState {
        DecoderState {
            blocks: self.blocks@.map_values(|b: FecBlock| b@),
            ready: ready_views(self.ready@),
            max_block_ids: self.max_block_ids@,
            completed: self.completed@.dom(),
        }
    }
}

/// The block that is the first to be forgotten, of all but `spare`.
fn find_stalest<V>(
    keys: &VecMap<BlockKey, V>,
    ids: &VecMap<SocketAddr, u32>,
    spare: BlockKey,
) -> (r: Option<BlockKey>)
    requires
        keys.wf(),
        ids.wf(),
    ensures
        match r {
            Some(key) => is_stalest(ids@, keys@.dom(), spare, key),
            None => forall|k: BlockKey| #[trigger] keys@.dom().contains(k) ==> k == spare,
        },
{
    let entries = &keys.entries;
    let mut found: Option<BlockKey> = None;
    let mut i: usize = 0;
    proof {
        lemma_entries_map(entries@);
    }
    while i < entries.len()
        invariant
            i <= entries@.len(),
            keys.wf(),
            ids.wf(),
            entries@ == keys.entries@,
            forall|j: int|
                0 <= j < entries@.len() ==> #[trigger] keys@.contains_key(entries@[j].0),
            match found {
                Some(key) => keys@.contains_key(key) && key != spare && forall|j: int|
                    0 <= j < i && (#[trigger] entries@[j]).0 != spare && entries@[j].0 != key
                        ==> staler(ids@, key, entries@[j].0),
                None => forall|j: int| 0 <= j < i ==> (#[trigger] entries@[j]).0 == spare,
            },
        decreases entries@.len() - i,
    {
        let key: BlockKey = entries[i].0;
        assert(keys@.contains_key(entries@[i as int].0));
        if key != spare {
            let ghost before = found;
            let first = match found {
                Some(other) => is_staler(ids, &key, &other),
                None => true,
            };
            if first {
                found = Some(key);
            }
            proof {
                if let Some(other) = before {
                    lemma_staler_is_total(ids@, key, other);
                    if first {
                        assert forall|j: int|
                            0 <= j < i + 1 && (#[trigger] entries@[j]).0 != spare && entries@[j].0
                                != key implies staler(ids@, key, entries@[j].0) by {
                            if entries@[j].0 != other {
                                lemma_staler_is_transitive(ids@, key, other, entries@[j].0);
                            }
                        }
                    }
                }
            }
        }
        i += 1;
    }
    proof {
        if let Some(key) = found {
            assert forall|k: BlockKey| #[trigger]
                keys@.dom().contains(k) && k != spare && k != key implies staler(ids@, key, k) by {
                assert(keys@.contains_key(k));
                let j = choose|j: int| has_key(entries@, k, j);
                assert(entries@[j].0 == k);
            }
        } else {
            assert forall|k: BlockKey| #[trigger] keys@.dom().contains(k) implies k == spare by {
                assert(keys@.contains_key(k));
                let j = choose|j: int| has_key(entries@, k, j);
                assert(entries@[j].0 == k);
            }
        }
    }
    found
}

/// The newest block of a sender, zero where none is known.
fn newest_id(ids: &VecMap<SocketAddr, u32>, addr: &SocketAddr) -> (newest: u32)
    requires
        ids.wf(),
    ensures
        newest == newest_of(ids@, *addr),
{
    match ids.get(addr) {
        Some(newest) => *newest,
        None => 0,
    }
}

/// Whether `a` is forgotten before `b`.
fn is_staler(ids: &VecMap<SocketAddr, u32>, a: &BlockKey, b: &BlockKey) -> (r: bool)
    requires
        ids.wf(),
    ensures
        r == staler(ids@, *a, *b),
{
    let age_a: u32 = newest_id(ids, &a.addr).wrapping_sub(a.block_id);
    let age_b: u32 = newest_id(ids, &b.addr).wrapping_sub(b.block_id);
    age_a > age_b || age_a == age_b && a.addr.is_before(&b.addr)
}

/// Forgets old blocks, once there are more than `limit`.
fn trim<V>(
    keys: &mut VecMap<BlockKey, V>,
    ids: &VecMap<SocketAddr, u32>,
    limit: u32,
    back: u32,
    spare: BlockKey,
)
    requires
        old(keys).wf(),
        ids.wf(),
        limit > 0,
    ensures
        final(keys).wf(),
        final(keys)@ == old(keys)@.restrict(
            trimmed(ids@, old(keys)@.dom(), limit as nat, back, spare),
        ),
{
    let ghost all = keys@;
    let ghost left = trimmed(ids@, all.dom(), limit as nat, back, spare);
    if keys.len() <= limit as usize {
        assert(keys@ =~= all.restrict(left));
        return;
    }
    let keep = |k: &BlockKey, _value: &V| -> (b: bool)
        ensures
            b == near_newest(ids@, *k, limit as nat, back, spare),
        {
            *k == spare || k.block_id.wrapping_sub(newest_id(ids, &k.addr).wrapping_sub(back))
                < limit
        };
    keys.retain(
        keep,
        Ghost(|k: BlockKey, v: V| near_newest(ids@, k, limit as nat, back, spare)),
    );
    let ghost near = all.dom().filter(
        |k: BlockKey| near_newest(ids@, k, limit as nat, back, spare),
    );
    assert(keys@.dom() =~= near);
    assert(keys@ =~= all.restrict(near));
    if keys.len() > limit as usize {
        let found = find_stalest(keys, ids, spare);
        proof {
            assert(near.remove(spare).len() > 0);
            lemma_some_stalest(ids@, near, spare);
        }
        if let Some(key) = found {
            proof {
                let old = choose|k: BlockKey| is_stalest(ids@, near, spare, k);
                lemma_stalest_is_unique(ids@, near, spare, old, key);
                assert(left =~= near.remove(key));
            }
            let _ = keys.remove(&key);
        } else {
            proof {
                let old = choose|k: BlockKey| is_stalest(ids@, near, spare, k);
                assert(keys@.dom().contains(old));
            }
        }
    }
    assert(keys@ =~= all.restrict(left));
}

impl FecDecoder {
    /// The maps and the blocks in them are well-formed.
    pub open spec fn entries_wf(&self) -> bool {
        &&& self.blocks.wf()
        &&& self.max_block_ids.wf()
        &&& self.completed.wf()
        &&& forall|k: BlockKey| #[trigger] self.blocks@.contains_key(k) ==> self.blocks@[k].wf()
    }

    /// The maps and the blocks in them are well-formed, and no more blocks are kept than may
    /// be.
    pub open spec fn wf(&self) -> bool {
        &&& self.entries_wf()
        &&& self@.bounded()
    }

    /// A decoder that has seen nothing.
    pub fn new() -> (d: FecDecoder)
        ensures
            d.wf(),
            d@ == DecoderState::fresh(),
    {
        let d = FecDecoder {
            blocks: VecMap::new(),
            ready: VecDeque::new(),
            max_block_ids: VecMap::new(),
            completed: VecMap::new(),
        };
        assert(d@ =~= DecoderState::fresh());
        d
    }

    /// Takes a datagram from the network. However many have come, and from however many
    /// senders, no more blocks are kept than may be.
    pub fn feed(&mut self, raw: &[u8], addr: SocketAddr)
        requires
            old(self).wf(),
        ensures
            final(self).wf(),
            final(self)@ == old(self)@.fed(raw@, addr),
            final(self)@.blocks.dom().len() <= MAX_BLOCKS,
            final(self)@.completed.len() <= MAX_COMPLETED,
    {
        if raw.len() < FEC_HEADER_SIZE {
            return;
        }
        let block_id: u32 = read_u32(raw, 0);
        assert(raw@.subrange(0, 4) =~= raw@.take(4));
        let index: usize = raw[4] as usize;
        let data_shards: usize = raw[5] as usize;
        let parity_shards: usize = raw[6] as usize;
        if data_shards == 0 || parity_shards == 0 {
            return;
        }
        let shard = copy_range(raw, FEC_HEADER_SIZE, raw.len());
        assert(shard@ =~= raw@.skip(FEC_HEADER_SIZE as int));
        let key = BlockKey { addr, block_id };
        if self.completed.contains_key(&key) {
            return;
        }
        let ghost before = self@;
        self.note(key);
        let ghost noted = self@;
        let mut block = match self.blocks.remove(&key) {
            Some(block) => block,
            None => FecBlock::new(data_shards, parity_shards),
        };
        assert(block@ == before.block_at(key, data_shards as nat, parity_shards as nat));
        let complete = block.insert(index, shard);
        let ghost done = block@;
        if complete {
            self.completed.insert(key, ());
            if let Some(payloads) = block.reconstruct() {
                self.deliver(payloads, addr);
            } else {
                assert(self@.ready =~= noted.ready + with_sender(Seq::empty(), addr));
            }
        } else {
            self.blocks.insert(key, block);
        }
        assert(self@ =~= noted.settled(key, done));
        proof {
            lemma_settled_len(noted, key, done);
        }
        self.evict_old_blocks(key);
    }

    /// Puts payloads of one sender behind those that wait.
    pub fn deliver(&mut self, payloads: Vec<Vec<u8>>, addr: SocketAddr)
        requires
            old(self).entries_wf(),
        ensures
            final(self).entries_wf(),
            final(self)@ == (DecoderState {
                ready: old(self)@.ready + with_sender(shard_views(payloads@), addr),
                ..old(self)@
            }),
    {
        let ghost before = self@;
        let ghost all = shard_views(payloads@);
        let mut payloads = payloads;
        let mut i: usize = 0;
        assert(self@.ready =~= before.ready + with_sender(all.take(0), addr));
        while i < payloads.len()
            invariant
                self.entries_wf(),
                self@ == (DecoderState { ready: self@.ready, ..before }),
                i <= payloads@.len(),
                all.len() == payloads@.len(),
                forall|j: int| i <= j < payloads@.len() ==> payloads@[j]@ == #[trigger] all[j],
                self@.ready == before.ready + with_sender(all.take(i as int), addr),
            decreases payloads@.len() - i,
        {
            let ghost now = self@.ready;
            let mut payload: Vec<u8> = Vec::new();
            assert(payloads@[i as int]@ == all[i as int]);
            std::mem::swap(&mut payload, &mut payloads[i]);
            self.ready.push_back((payload, addr));
            proof {
                assert(self@.ready =~= now.push((payload@, addr)));
                assert(self@.ready =~= before.ready + with_sender(all.take(i + 1), addr));
            }
            i += 1;
        }
        assert(all.take(i as int) =~= all);
    }

    /// Takes note of a block number.
    fn note(&mut self, key: BlockKey)
        requires
            old(self).wf(),
        ensures
            final(self).wf(),
            final(self)@ == old(self)@.noted(key),
    {
        let newest: u32 = newest_id(&self.max_block_ids, &key.addr);
        let newest: u32 = if key.block_id.wrapping_sub(newest) < u32::MAX / 2 {
            key.block_id
        } else {
            newest
        };
        self.max_block_ids.insert(key.addr, newest);
        assert(self@ =~= old(self)@.noted(key));
    }

    /// Forgets old blocks, once there are too many. The block `spare` stays.
    pub fn evict_old_blocks(&mut self, spare: BlockKey)
        requires
            old(self).entries_wf(),
            old(self)@.blocks.dom().len() <= MAX_BLOCKS + 1,
            old(self)@.completed.len() <= MAX_COMPLETED + 1,
        ensures
            final(self).wf(),
            final(self)@ == old(self)@.evicted(spare),
    {
        let ghost before = self@;
        let ghost ids = self.max_block_ids@;
        proof {
            lemma_entries_map(self.blocks.entries@);
            lemma_entries_map(self.completed.entries@);
            assert(before.blocks.dom() =~= self.blocks@.dom());
            lemma_trimmed(ids, before.blocks.dom(), MAX_BLOCKS as nat, 128, spare);
            lemma_trimmed(ids, before.completed, MAX_COMPLETED as nat, 256, spare);
        }
        trim(&mut self.blocks, &self.max_block_ids, MAX_BLOCKS as u32, 128, spare);
        trim(&mut self.completed, &self.max_block_ids, MAX_COMPLETED as u32, 256, spare);
        proof {
            let after = before.evicted(spare);
            assert(self@.blocks =~= after.blocks);
            assert(self@.completed =~= after.completed);
            assert(after.blocks.dom() =~= trimmed(
                ids,
                before.blocks.dom(),
                MAX_BLOCKS as nat,
                128,
                spare,
            ));
            assert(self@ =~= after);
        }
    }

    /// Takes the datagram that has waited longest.
    pub fn pop_ready(&mut self) -> (r: Option<(Vec<u8>, SocketAddr)>)
        requires
            old(self).wf(),
        ensures
            final(self).wf(),
            match r {
                Some((data, addr)) => old(self)@.ready.len() > 0 && (data@, addr)
                    == old(self)@.ready[0] && final(self)@ == (DecoderState {
                    ready: old(self)@.ready.skip(1),
                    ..old(self)@
                }),
                None => old(self)@.ready.len() == 0 && final(self)@ == old(self)@,
            },
            (
                final(self)@,
                match r {
                    Some((data, addr)) => Some((data@, addr)),
                    None => None,
                },
            ) == old(self)@.popped(),
    {
        let ghost before = self@;
        let r = self.ready.pop_front();
        proof {
            match r {
                Some(_) => {
                    assert(self@.ready =~= before.ready.skip(1));
                },
                None => {
                    assert(self@.ready =~= before.ready);
                },
            }
        }
        r
    }
}

} // verus!
