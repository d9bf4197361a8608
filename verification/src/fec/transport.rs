//! Forward error correction between a protocol and its datagram socket.

use crate::addr::SocketAddr;
use crate::error::TransportError;
use crate::fec::codec::{code_supported, shard_views};
use crate::fec::config::FecConfig;
use crate::fec::decoder::{DecoderState, FecDecoder};
use crate::fec::encoder::{
    block_packets, filled_up, payload_taken, well_coded, EncoderState, FecEncoder,
    MAX_SHARD_PAYLOAD,
};
use crate::vec_map::{has_key, lemma_entries_map, VecMap};
use vstd::prelude::*;

verus! {

/// How long a block may wait to be filled, in nanoseconds.
pub const FLUSH_TIMEOUT: u64 = 50_000_000;

/// The size of the buffer into which packets are received.
pub const RECV_BUFFER_LEN: usize = 1609;

/// What a transport holds.
#[verifier::ext_equal]
pub struct TransportState {
    /// The encoder of each target.
    pub encoders: Map<SocketAddr, EncoderState>,
    /// The one decoder.
    pub decoder: DecoderState,
    /// When the last payload was taken for each block that is not full.
    pub pending: Map<SocketAddr, u64>,
}

/// What to do next in order to receive a datagram.
#[derive(Debug)]
pub enum RecvAction {
    /// Hand this datagram of this sender over.
    Deliver(Vec<u8>, SocketAddr),
    /// Wait for a packet, but, where a time is given, for no more nanoseconds than that;
    /// then flush.
    Wait(Option<u128>),
}

impl TransportState {
    /// What a target's encoder holds, that of a fresh one where there is none.
    pub open spec fn encoder_of(self, target: SocketAddr) -> EncoderState {
        if self.encoders.contains_key(target) {
            self.encoders[target]
        } else {
            EncoderState { block_id: 0, pending: Seq::empty() }
        }
    }

    /// The transport after a payload for `target` was refused: the encoder exists.
    pub open spec fn with_refused(self, target: SocketAddr) -> TransportState {
        TransportState {
            encoders: self.encoders.insert(target, self.encoder_of(target)),
            ..self
        }
    }

    /// The transport after it took a payload that does not fill a block.
    pub open spec fn with_buffered(self, target: SocketAddr, payload: Seq<u8>, now: u64) -> TransportState {
        let e = self.encoder_of(target);
        TransportState {
            encoders: self.encoders.insert(
                target,
                EncoderState { block_id: e.block_id, pending: e.pending.push(payload) },
            ),
            pending: self.pending.insert(target, now),
            ..self
        }
    }

    /// The transport after a block for `target` went out.
    pub open spec fn with_sent(self, target: SocketAddr) -> TransportState {
        TransportState {
            encoders: self.encoders.insert(
                target,
                EncoderState {
                    block_id: self.encoder_of(target).block_id.wrapping_add(1),
                    pending: Seq::empty(),
                },
            ),
            pending: self.pending.remove(target),
            ..self
        }
    }

    /// The block of a target has waited long enough.
    pub open spec fn overdue(self, target: SocketAddr, now: u64) -> bool {
        self.pending.contains_key(target) && now - self.pending[target] >= FLUSH_TIMEOUT
    }

    /// `left` nanoseconds remain until some block has waited long enough.
    pub open spec fn next_flush(self, now: u64, left: u128) -> bool {
        exists|first: SocketAddr|
            {
                &&& #[trigger] self.pending.contains_key(first)
                &&& forall|a: SocketAddr| #[trigger]
                    self.pending.contains_key(a) ==> self.pending[first] <= self.pending[a]
                &&& left == if self.pending[first] + FLUSH_TIMEOUT >= now {
                    self.pending[first] + FLUSH_TIMEOUT - now
                } else {
                    0
                }
            }
    }
}

/// Adds forward error correction to datagrams. Each target has an encoder of its own, so
/// that no block mixes the data of two.
pub struct FecTransport {
    /// Number of data shards per block.
    pub data_shards: usize,
    /// Number of parity shards per block.
    pub parity_shards: usize,
    /// The encoder of each target.
    pub encoders: VecMap<SocketAddr, FecEncoder>,
    /// The decoder of all senders.
    pub decoder: FecDecoder,
    /// When the last payload was taken for each block that is not full, in nanoseconds.
    pub pending_flush: VecMap<SocketAddr, u64>,
}

impl View for FecTransport {
    type V = TransportState;

    open spec fn view(&self) -> TransportState {
        TransportState {
            encoders: self.encoders@.map_values(|e: FecEncoder| e@),
            decoder: self.decoder@,
            pending: self.pending_flush@,
        }
    }
}

impl FecTransport {
    /// All encoders are well-formed and of this transport's shard counts, and exactly the
    /// targets whose encoder holds payloads back are pending.
    pub open spec fn wf(&self) -> bool {
        &&& self.encoders.wf()
        &&& self.decoder.wf()
        &&& self.pending_flush.wf()
        &&& forall|a: SocketAddr| #[trigger]
            self.encoders@.contains_key(a) ==> {
                let e = self.encoders@[a];
                e.wf() && e.data_shards == self.data_shards && e.parity_shards
                    == self.parity_shards
            }
        &&& forall|a: SocketAddr| #[trigger]
            self@.pending.contains_key(a) <==> self@.encoder_of(a).pending.len() > 0
    }

    /// A transport that has neither sent nor received.
    pub fn new(config: &FecConfig) -> (t: FecTransport)
        ensures
            t.wf(),
            t.data_shards == config.data_shards,
            t.parity_shards == config.parity_shards,
            t@ == (TransportState {
                encoders: Map::empty(),
                decoder: DecoderState::fresh(),
                pending: Map::empty(),
            }),
    {
        let t = FecTransport {
            data_shards: config.data_shards,
            parity_shards: config.parity_shards,
            encoders: VecMap::new(),
            decoder: FecDecoder::new(),
            pending_flush: VecMap::new(),
        };
        assert(t@.encoders =~= Map::empty());
        t
    }

    /// Takes a datagram for `target` at the time `now`. Returns the packets that have to go
    /// to it now: those of a whole block, or none while the block is not full.
    pub fn send_to(&mut self, buf: &[u8], target: SocketAddr, now: u64) -> (r: Result<
        Vec<Vec<u8>>,
        TransportError,
    >)
        requires
            old(self).wf(),
            code_supported(old(self).data_shards as nat, old(self).parity_shards as nat),
        ensures
            final(self).wf(),
            final(self).data_shards == old(self).data_shards,
            final(self).parity_shards == old(self).parity_shards,
            match r {
                Err(e) => buf@.len() > MAX_SHARD_PAYLOAD && e == TransportError::FecPayloadTooLarge(
                    buf@.len() as usize,
                ) && final(self)@ == old(self)@.with_refused(target),
                Ok(packets) => {
                    let e = old(self)@.encoder_of(target);
                    let block = e.pending.push(buf@);
                    let parity = old(self).parity_shards as nat;
                    &&& buf@.len() <= MAX_SHARD_PAYLOAD
                    &&& if block.len() < old(self).data_shards {
                        &&& packets@.len() == 0
                        &&& final(self)@ == old(self)@.with_buffered(target, buf@, now)
                    } else {
                        &&& shard_views(packets@) == block_packets(e.block_id, block, parity)
                        &&& well_coded(block, parity)
                        &&& final(self)@ == old(self)@.with_sent(target)
                    }
                },
            },
            r matches Ok(packets) ==> {
                let (after, out) = payload_taken(
                    old(self)@.encoder_of(target),
                    buf@,
                    old(self).data_shards as nat,
                    old(self).parity_shards as nat,
                );
                &&& final(self)@.encoder_of(target) == after
                &&& match out {
                    Some(block) => shard_views(packets@) == block,
                    None => packets@.len() == 0,
                }
            },
    {
        let ghost before = self@;
        let ghost held = self.encoders@;
        let mut encoder = match self.encoders.remove(&target) {
            Some(encoder) => encoder,
            None => FecEncoder::new(self.data_shards, self.parity_shards),
        };
        assert(encoder@ == before.encoder_of(target));
        assert(encoder@.pending.len() < self.data_shards);
        let r = encoder.add_payload(buf);
        self.encoders.insert(target, encoder);
        assert(self@.encoders =~= before.encoders.insert(target, encoder@));
        let r = match r {
            Ok(Some(packets)) => {
                let _ = self.pending_flush.remove(&target);
                assert(self@ =~= before.with_sent(target));
                Ok(packets)
            },
            Ok(None) => {
                self.pending_flush.insert(target, now);
                assert(self@ =~= before.with_buffered(target, buf@, now));
                Ok(Vec::new())
            },
            Err(e) => {
                assert(self@ =~= before.with_refused(target));
                Err(e)
            },
        };
        proof {
            assert forall|a: SocketAddr| #[trigger]
                self@.pending.contains_key(a) <==> self@.encoder_of(a).pending.len() > 0 by {
                assert(before.pending.contains_key(a) <==> before.encoder_of(a).pending.len() > 0);
            }
            assert forall|a: SocketAddr| #[trigger] self.encoders@.contains_key(a) implies {
                let e = self.encoders@[a];
                e.wf() && e.data_shards == self.data_shards && e.parity_shards
                    == self.parity_shards
            } by {
                if a != target {
                    assert(held.contains_key(a));
                }
            }
        }
        r
    }

    /// The targets whose block has waited long enough at the time `now`.
    pub fn flush_targets(&self, now: u64) -> (targets: Vec<SocketAddr>)
        requires
            self.wf(),
        ensures
            targets@.no_duplicates(),
            forall|a: SocketAddr| #[trigger] targets@.contains(a) <==> self@.overdue(a, now),
    {
        let mut targets: Vec<SocketAddr> = Vec::new();
        let mut i: usize = 0;
        let entries = &self.pending_flush.entries;
        proof {
            lemma_entries_map(entries@);
        }
        while i < entries.len()
            invariant
                i <= entries@.len(),
                self.wf(),
                entries@ == self.pending_flush.entries@,
                forall|j: int|
                    0 <= j < entries@.len() ==> #[trigger] self@.pending.contains_key(entries@[j].0)
                        && self@.pending[entries@[j].0] == entries@[j].1,
                targets@.no_duplicates(),
                forall|j: int|
                    0 <= j < i && now - (#[trigger] entries@[j]).1 >= FLUSH_TIMEOUT
                        ==> targets@.contains(entries@[j].0),
                forall|a: SocketAddr| #[trigger]
                    targets@.contains(a) ==> self@.overdue(a, now) && exists|j: int|
                        j < i && has_key(entries@, a, j),
            decreases entries@.len() - i,
        {
            let target: SocketAddr = entries[i].0;
            assert(self@.pending.contains_key(entries@[i as int].0));
            let waited: u64 = now.saturating_sub(entries[i].1);
            if waited >= FLUSH_TIMEOUT {
                let ghost before = targets@;
                proof {
                    if before.contains(target) {
                        let j = choose|j: int| j < i && has_key(entries@, target, j);
                        assert(entries@[j].0 == entries@[i as int].0);
                    }
                }
                targets.push(target);
                proof {
                    assert(targets@[before.len() as int] == target);
                    assert forall|a: SocketAddr| #[trigger] targets@.contains(a) implies
                        self@.overdue(a, now) && exists|j: int| j < i + 1 && has_key(entries@, a, j) by {
                        if a == target {
                            assert(has_key(entries@, a, i as int));
                        } else {
                            let k = choose|k: int| 0 <= k < targets@.len() && targets@[k] == a;
                            assert(before[k] == a);
                            assert(before.contains(a));
                        }
                    }
                    assert forall|j: int| 0 <= j < i + 1 && now - (#[trigger] entries@[j]).1
                        >= FLUSH_TIMEOUT implies targets@.contains(entries@[j].0) by {
                        if j < i {
                            let k = choose|k: int| 0 <= k < before.len() && before[k] == entries@[j].0;
                            assert(targets@[k] == entries@[j].0);
                        }
                    }
                }
            }
            i += 1;
        }
        proof {
            assert forall|a: SocketAddr| self@.overdue(a, now) implies #[trigger] targets@.contains(
                a,
            ) by {
                let j = choose|j: int| has_key(entries@, a, j);
                assert(self@.pending.contains_key(entries@[j].0));
            }
        }
        targets
    }

    /// How long the first block may still wait at the time `now`, in nanoseconds.
    pub fn flush_delay(&self, now: u64) -> (r: Option<u128>)
        requires
            self.wf(),
        ensures
            match r {
                Some(left) => self@.next_flush(now, left),
                None => self@.pending == Map::<SocketAddr, u64>::empty(),
            },
    {
        let entries = &self.pending_flush.entries;
        proof {
            lemma_entries_map(entries@);
        }
        if entries.len() == 0 {
            assert(self@.pending =~= Map::empty());
            return None;
        }
        let mut first: usize = 0;
        let mut i: usize = 1;
        while i < entries.len()
            invariant
                first < i <= entries@.len(),
                forall|j: int| 0 <= j < i ==> entries@[first as int].1 <= (#[trigger] entries@[j]).1,
            decreases entries@.len() - i,
        {
            if entries[i].1 < entries[first].1 {
                first = i;
            }
            i += 1;
        }
        proof {
            let key = entries@[first as int].0;
            assert(self@.pending.contains_key(key));
            assert forall|a: SocketAddr| #[trigger] self@.pending.contains_key(a) implies
                self@.pending[key] <= self@.pending[a] by {
                let j = choose|j: int| has_key(entries@, a, j);
                assert(self@.pending.contains_key(entries@[j].0));
                assert(entries@[first as int].1 <= entries@[j].1);
            }
        }
        let deadline: u128 = entries[first].1 as u128 + FLUSH_TIMEOUT as u128;
        Some(deadline.saturating_sub(now as u128))
    }

    /// Sends what waits for `target`, whether or not it fills a block. Returns the packets
    /// that have to go to it.
    pub fn flush(&mut self, target: SocketAddr) -> (r: Option<Vec<Vec<u8>>>)
        requires
            old(self).wf(),
        ensures
            final(self).wf(),
            final(self).data_shards == old(self).data_shards,
            final(self).parity_shards == old(self).parity_shards,
            match r {
                Some(packets) => {
                    let e = old(self)@.encoder_of(target);
                    let block = filled_up(e.pending, old(self).data_shards as nat);
                    let parity = old(self).parity_shards as nat;
                    &&& e.pending.len() > 0
                    &&& shard_views(packets@) == block_packets(e.block_id, block, parity)
                    &&& well_coded(block, parity)
                    &&& final(self)@ == old(self)@.with_sent(target)
                },
                None => old(self)@.encoder_of(target).pending.len() == 0 && final(self)@
                    == old(self)@,
            },
    {
        let ghost before = self@;
        let ghost held = self.encoders@;
        let packets = match self.encoders.remove(&target) {
            Some(mut encoder) => {
                let packets = encoder.flush();
                self.encoders.insert(target, encoder);
                assert(self@.encoders =~= before.encoders.insert(target, encoder@));
                packets
            },
            None => {
                assert(self@.encoders =~= before.encoders);
                None
            },
        };
        let _ = self.pending_flush.remove(&target);
        proof {
            assert(before.pending.contains_key(target) <==> before.encoder_of(target).pending.len()
                > 0);
            match packets {
                Some(_) => {
                    assert(self@ =~= before.with_sent(target));
                },
                None => {
                    assert(self@ =~= before);
                },
            }
            assert forall|a: SocketAddr| #[trigger]
                self@.pending.contains_key(a) <==> self@.encoder_of(a).pending.len() > 0 by {
                assert(before.pending.contains_key(a) <==> before.encoder_of(a).pending.len() > 0);
            }
            assert forall|a: SocketAddr| #[trigger] self.encoders@.contains_key(a) implies {
                let e = self.encoders@[a];
                e.wf() && e.data_shards == self.data_shards && e.parity_shards
                    == self.parity_shards
            } by {
                if a != target {
                    assert(held.contains_key(a));
                }
            }
        }
        packets
    }

    /// Takes a packet from the network.
    pub fn feed(&mut self, raw: &[u8], addr: SocketAddr)
        requires
            old(self).wf(),
        ensures
            final(self).wf(),
            final(self).data_shards == old(self).data_shards,
            final(self).parity_shards == old(self).parity_shards,
            final(self)@ == (TransportState {
                decoder: old(self)@.decoder.fed(raw@, addr),
                ..old(self)@
            }),
    {
        let ghost before = self@;
        self.decoder.feed(raw, addr);
        proof {
            assert(self@.encoders == before.encoders);
            assert forall|a: SocketAddr| #[trigger]
                self@.pending.contains_key(a) <==> self@.encoder_of(a).pending.len() > 0 by {
                assert(before.pending.contains_key(a) <==> before.encoder_of(a).pending.len() > 0);
            }
        }
    }

    /// What to do at the time `now` in order to receive a datagram of at most `max` bytes.
    /// A longer one is cut off.
    pub fn poll_recv(&mut self, now: u64, max: usize) -> (action: RecvAction)
        requires
            old(self).wf(),
        ensures
            final(self).wf(),
            final(self).data_shards == old(self).data_shards,
            final(self).parity_shards == old(self).parity_shards,
            match action {
                RecvAction::Deliver(data, addr) => {
                    let ready = old(self)@.decoder.ready;
                    &&& ready.len() > 0
                    &&& addr == ready[0].1
                    &&& data@ == if ready[0].0.len() <= max {
                        ready[0].0
                    } else {
                        ready[0].0.take(max as int)
                    }
                    &&& final(self)@ == (TransportState {
                        decoder: DecoderState { ready: ready.skip(1), ..old(self)@.decoder },
                        ..old(self)@
                    })
                },
                RecvAction::Wait(left) => {
                    &&& old(self)@.decoder.ready.len() == 0
                    &&& final(self)@ == old(self)@
                    &&& match left {
                        Some(left) => old(self)@.next_flush(now, left),
                        None => old(self)@.pending == Map::<SocketAddr, u64>::empty(),
                    }
                },
            },
    {
        let ghost before = self@;
        let popped = self.decoder.pop_ready();
        proof {
            assert(self@.encoders == before.encoders);
            assert forall|a: SocketAddr| #[trigger]
                self@.pending.contains_key(a) <==> self@.encoder_of(a).pending.len() > 0 by {
                assert(before.pending.contains_key(a) <==> before.encoder_of(a).pending.len() > 0);
            }
        }
        match popped {
            Some((mut data, addr)) => {
                data.truncate(max);
                RecvAction::Deliver(data, addr)
            },
            None => RecvAction::Wait(self.flush_delay(now)),
        }
    }
}

/// Sends what waits for `target` at once, without waiting for its time to run out. Returns
/// the packets that have to go to it.
pub fn flush_fec_encoder(transport: &mut FecTransport, target: SocketAddr) -> (r: Option<
    Vec<Vec<u8>>,
>)
    requires
        old(transport).wf(),
    ensures
        final(transport).wf(),
        final(transport).data_shards == old(transport).data_shards,
        final(transport).parity_shards == old(transport).parity_shards,
        match r {
            Some(packets) => {
                let e = old(transport)@.encoder_of(target);
                let block = filled_up(e.pending, old(transport).data_shards as nat);
                let parity = old(transport).parity_shards as nat;
                &&& e.pending.len() > 0
                &&& shard_views(packets@) == block_packets(e.block_id, block, parity)
                &&& well_coded(block, parity)
                &&& final(transport)@ == old(transport)@.with_sent(target)
            },
            None => old(transport)@.encoder_of(target).pending.len() == 0 && final(transport)@
                == old(transport)@,
        },
{
    transport.flush(target)
}

} // verus!
