//! A block of shards on its way in.

use crate::fec::codec::{
    code_supported, partial_uniform, partial_views, present_count, rs_reconstruct,
    rs_recover, rs_supports, shard_views,
};
use crate::fec::encoder::resized;
use crate::wire::{be_value, copy_range, read_u16};
use vstd::prelude::*;

verus! {

/// What has arrived of a block.
#[verifier::ext_equal]
pub struct BlockState {
    /// Number of data shards.
    pub data: nat,
    /// Number of parity shards.
    pub parity: nat,
    /// The length of the shard that arrived first.
    pub size: Option<nat>,
    /// The shards.
    pub shards: Seq<Option<Seq<u8>>>,
}

impl BlockState {
    /// A block of which nothing has arrived.
    pub open spec fn fresh(data: nat, parity: nat) -> BlockState {
        BlockState {
            data,
            parity,
            size: None,
            shards: Seq::new(data + parity, |i: int| None::<Seq<u8>>),
        }
    }

    /// Every shard that arrived has the length of the first one.
    pub open spec fn wf(self) -> bool {
        &&& self.shards.len() == self.data + self.parity
        &&& match self.size {
            Some(size) => partial_uniform(self.shards, size),
            None => forall|i: int| 0 <= i < self.shards.len() ==> (#[trigger] self.shards[i]) is None,
        }
    }

    /// Enough has arrived.
    pub open spec fn complete(self) -> bool {
        present_count(self.shards) >= self.data
    }

    /// The block after the arrival of a shard. Shards that are already there, and those that
    /// cannot belong to the block, change nothing. The first shard sets the length.
    pub open spec fn with(self, index: nat, shard: Seq<u8>) -> BlockState {
        if index >= self.data + self.parity || self.shards[index as int] is Some {
            self
        } else {
            let size = match self.size {
                Some(size) => size,
                None => shard.len(),
            };
            BlockState {
                size: Some(size),
                shards: self.shards.update(index as int, Some(resized(shard, size))),
                ..self
            }
        }
    }

    /// Some data shard has not arrived.
    pub open spec fn data_missing(self) -> bool {
        exists|i: int| 0 <= i < self.data && (#[trigger] self.shards[i]) is None
    }

    /// The data shards, as far as they arrived or can be recovered.
    pub open spec fn recovered(self) -> Option<Seq<Seq<u8>>> {
        if !self.complete() || !code_supported(self.data, self.parity) {
            None
        } else if !self.data_missing() {
            Some(Seq::new(self.data, |i: int| self.shards[i]->0))
        } else if self.size == Some(0nat) {
            None
        } else {
            Some(rs_recover(self.data, self.parity, self.shards).take(self.data as int))
        }
    }

    /// The payloads of the block.
    pub open spec fn payloads(self) -> Option<Seq<Seq<u8>>> {
        match self.recovered() {
            Some(shards) => Some(shard_payloads(shards)),
            None => None,
        }
    }
}

/// The payload in a data shard. A shard of length zero in its prefix is padding.
pub open spec fn shard_payload(shard: Seq<u8>) -> Option<Seq<u8>> {
    if shard.len() < 2 || be_value(shard.take(2)) == 0 {
        None
    } else if 2 + be_value(shard.take(2)) <= shard.len() {
        Some(shard.subrange(2, (2 + be_value(shard.take(2))) as int))
    } else {
        Some(shard.skip(2))
    }
}

/// The payloads in a list of data shards.
pub open spec fn shard_payloads(shards: Seq<Seq<u8>>) -> Seq<Seq<u8>>
    decreases shards.len(),
{
    if shards.len() == 0 {
        Seq::empty()
    } else {
        let rest = shard_payloads(shards.drop_last());
        match shard_payload(shards.last()) {
            Some(payload) => rest.push(payload),
            None => rest,
        }
    }
}

/// A block of which no shard is there counts none.
pub proof fn lemma_present_count_none(shards: Seq<Option<Seq<u8>>>)
    requires
        forall|i: int| 0 <= i < shards.len() ==> (#[trigger] shards[i]) is None,
    ensures
        present_count(shards) == 0,
    decreases shards.len(),
{
    if shards.len() > 0 {
        assert(shards[shards.len() - 1] is None);
        assert forall|i: int| 0 <= i < shards.drop_last().len() implies (
        #[trigger] shards.drop_last()[i]) is None by {
            assert(shards[i] is None);
        }
        lemma_present_count_none(shards.drop_last());
    }
}

/// One more shard counts one more.
pub proof fn lemma_present_count_update(shards: Seq<Option<Seq<u8>>>, index: int, shard: Seq<u8>)
    requires
        0 <= index < shards.len(),
        shards[index] is None,
    ensures
        present_count(shards.update(index, Some(shard))) == present_count(shards) + 1,
        present_count(shards) < shards.len(),
    decreases shards.len(),
{
    let after = shards.update(index, Some(shard));
    lemma_present_count_bound(shards.drop_last());
    if index == shards.len() - 1 {
        assert(after.drop_last() =~= shards.drop_last());
    } else {
        assert(after.drop_last() =~= shards.drop_last().update(index, Some(shard)));
        lemma_present_count_update(shards.drop_last(), index, shard);
    }
}

/// No more shards are there than have a place.
pub proof fn lemma_present_count_bound(shards: Seq<Option<Seq<u8>>>)
    ensures
        present_count(shards) <= shards.len(),
    decreases shards.len(),
{
    if shards.len() > 0 {
        lemma_present_count_bound(shards.drop_last());
    }
}

/// The arrival of a shard keeps a block well-formed.
pub proof fn lemma_with_keeps_wf(b: BlockState, index: nat, shard: Seq<u8>)
    requires
        b.wf(),
    ensures
        b.with(index, shard).wf(),
{
}

/// A block whose shards are being collected.
#[derive(Debug)]
pub struct FecBlock {
    /// Number of data shards.
    pub data_shards: usize,
    /// Number of parity shards.
    pub parity_shards: usize,
    /// The length of the shard that arrived first.
    pub shard_size: Option<usize>,
    /// The shards; `None` has not arrived.
    pub shards: Vec<Option<Vec<u8>>>,
    /// How many have arrived.
    pub received_count: usize,
}

impl View for FecBlock {
    type V = BlockState;

    open spec fn view(&self) -> BlockState {
        BlockState {
            data: self.data_shards as nat,
            parity: self.parity_shards as nat,
            size: match self.shard_size {
                Some(size) => Some(size as nat),
                None => None,
            },
            shards: partial_views(self.shards@),
        }
    }
}

impl FecBlock {
    /// The count is right, and every shard has the length of the first one.
    pub open spec fn wf(&self) -> bool {
        &&& self@.wf()
        &&& self.data_shards + self.parity_shards <= usize::MAX
        &&& self.received_count == present_count(self@.shards)
    }

    /// A block of which nothing has arrived.
    pub fn new(data_shards: usize, parity_shards: usize) -> (b: FecBlock)
        requires
            data_shards + parity_shards <= usize::MAX,
        ensures
            b.wf(),
            b@ == BlockState::fresh(data_shards as nat, parity_shards as nat),
    {
        let total: usize = data_shards + parity_shards;
        let mut shards: Vec<Option<Vec<u8>>> = Vec::new();
        while shards.len() < total
            invariant
                shards@.len() <= total,
                forall|i: int| 0 <= i < shards@.len() ==> (#[trigger] shards@[i]) is None,
            decreases total - shards@.len(),
        {
            shards.push(None);
        }
        proof {
            lemma_present_count_none(partial_views(shards@));
        }
        let b = FecBlock {
            data_shards,
            parity_shards,
            shard_size: None,
            shards,
            received_count: 0,
        };
        assert(b@.shards =~= BlockState::fresh(data_shards as nat, parity_shards as nat).shards);
        b
    }

    /// Takes a shard. Returns whether enough has arrived.
    pub fn insert(&mut self, index: usize, data: Vec<u8>) -> (complete: bool)
        requires
            old(self).wf(),
        ensures
            final(self).wf(),
            final(self)@ == old(self)@.with(index as nat, data@),
            complete == final(self)@.complete(),
    {
        let total: usize = self.data_shards + self.parity_shards;
        if index >= total || self.shards[index].is_some() {
            assert(index < total ==> self@.shards[index as int] is Some);
            return self.received_count >= self.data_shards;
        }
        let ghost before = self@;
        let size: usize = match self.shard_size {
            Some(size) => size,
            None => data.len(),
        };
        self.shard_size = Some(size);
        let ghost given = data@;
        let mut data = data;
        data.resize(size, 0);
        proof {
            assert(data@ =~= resized(given, size as nat));
            assert(before.shards[index as int] is None);
            lemma_present_count_update(before.shards, index as int, data@);
            lemma_present_count_bound(before.shards);
        }
        self.shards[index] = Some(data);
        self.received_count = self.received_count + 1;
        proof {
            assert(self@.shards =~= before.shards.update(index as int, Some(data@)));
            assert(self@ == before.with(index as nat, given));
        }
        self.received_count >= self.data_shards
    }

    /// Recovers what is missing and returns the payloads.
    pub fn reconstruct(self) -> (r: Option<Vec<Vec<u8>>>)
        requires
            self.wf(),
        ensures
            match r {
                Some(payloads) => self@.payloads() == Some(shard_views(payloads@)),
                None => self@.payloads() is None,
            },
    {
        if self.received_count < self.data_shards {
            return None;
        }
        if !rs_supports(self.data_shards, self.parity_shards) {
            return None;
        }
        let ghost before = self@;
        let data_shards: usize = self.data_shards;
        let missing = self.data_missing();
        let parity_shards: usize = self.parity_shards;
        let mut shards = self.shards;
        if missing {
            let ok = rs_reconstruct(data_shards, parity_shards, &mut shards);
            proof {
                lemma_recoverable(before);
            }
            if !ok {
                return None;
            }
        }
        assert(partial_views(shards@).len() == data_shards + parity_shards);
        let whole = present_shards(shards, data_shards);
        proof {
            assert(before.recovered() == Some(shard_views(whole@))) by {
                if missing {
                    assert(shard_views(whole@) =~= rs_recover(
                        before.data,
                        before.parity,
                        before.shards,
                    ).take(before.data as int));
                } else {
                    assert(shard_views(whole@) =~= Seq::new(
                        before.data,
                        |i: int| before.shards[i]->0,
                    ));
                }
            }
        }
        Some(extract_payloads(&whole))
    }

    /// Whether some data shard has not arrived.
    pub fn data_missing(&self) -> (missing: bool)
        requires
            self.wf(),
        ensures
            missing == self@.data_missing(),
    {
        let mut i: usize = 0;
        while i < self.data_shards
            invariant
                self.wf(),
                i <= self.data_shards,
                forall|j: int| 0 <= j < i ==> (#[trigger] self@.shards[j]) is Some,
            decreases self.data_shards - i,
        {
            if self.shards[i].is_none() {
                assert(self@.shards[i as int] is None);
                return true;
            }
            assert(self@.shards[i as int] is Some);
            i += 1;
        }
        false
    }
}

/// When a block with enough shards can be recovered: when they are not empty.
pub proof fn lemma_recoverable(b: BlockState)
    requires
        b.wf(),
        b.complete(),
        b.data > 0,
    ensures
        b.size is Some,
        (b.size != Some(0nat)) == (exists|len: nat|
            len > 0 && #[trigger] partial_uniform(b.shards, len)),
{
    if b.size is None {
        lemma_present_count_none(b.shards);
    }
    let size = b.size->0;
    let i = lemma_some_present(b.shards);
    if size > 0 {
        assert(partial_uniform(b.shards, size));
    }
    if exists|len: nat| len > 0 && #[trigger] partial_uniform(b.shards, len) {
        let len = choose|len: nat| len > 0 && #[trigger] partial_uniform(b.shards, len);
        assert(b.shards[i]->0.len() == len);
        assert(b.shards[i]->0.len() == size);
    }
}

/// Where some shards are counted, one is there.
pub proof fn lemma_some_present(shards: Seq<Option<Seq<u8>>>) -> (i: int)
    requires
        present_count(shards) > 0,
    ensures
        0 <= i < shards.len(),
        shards[i] is Some,
    decreases shards.len(),
{
    if shards.last() is Some {
        shards.len() - 1
    } else {
        lemma_some_present(shards.drop_last())
    }
}

/// The first `count` shards, all of which are there.
pub fn present_shards(shards: Vec<Option<Vec<u8>>>, count: usize) -> (whole: Vec<Vec<u8>>)
    requires
        count <= shards@.len(),
        forall|i: int| 0 <= i < count ==> (#[trigger] partial_views(shards@)[i]) is Some,
    ensures
        shard_views(whole@) == Seq::new(count as nat, |i: int| partial_views(shards@)[i]->0),
{
    let mut shards = shards;
    let ghost all = partial_views(shards@);
    let mut whole: Vec<Vec<u8>> = Vec::new();
    let mut i: usize = 0;
    while i < count
        invariant
            i <= count <= shards@.len(),
            all.len() == shards@.len(),
            forall|j: int| 0 <= j < count ==> (#[trigger] all[j]) is Some,
            forall|j: int| i <= j < count ==> partial_views(shards@)[j] == #[trigger] all[j],
            whole@.len() == i,
            shard_views(whole@) == Seq::new(i as nat, |j: int| all[j]->0),
        decreases count - i,
    {
        assert(partial_views(shards@)[i as int] == all[i as int]);
        let ghost before = shard_views(whole@);
        let ghost now = partial_views(shards@);
        let mut slot: Option<Vec<u8>> = None;
        std::mem::swap(&mut slot, &mut shards[i]);
        proof {
            assert forall|j: int| i < j < count implies partial_views(shards@)[j]
                == #[trigger] all[j] by {
                assert(now[j] == all[j]);
            }
        }
        if let Some(shard) = slot {
            assert(Some(shard@) == all[i as int]);
            whole.push(shard);
            assert(shard_views(whole@) =~= before.push(shard@));
        }
        assert(shard_views(whole@) =~= Seq::new((i + 1) as nat, |j: int| all[j]->0));
        i += 1;
    }
    whole
}

/// Takes the payloads out of the data shards of a block.
pub fn extract_payloads(shards: &Vec<Vec<u8>>) -> (payloads: Vec<Vec<u8>>)
    ensures
        shard_views(payloads@) == shard_payloads(shard_views(shards@)),
{
    let ghost all = shard_views(shards@);
    let mut payloads: Vec<Vec<u8>> = Vec::new();
    let mut i: usize = 0;
    assert(all.take(0) =~= Seq::empty());
    while i < shards.len()
        invariant
            i <= shards@.len(),
            all == shard_views(shards@),
            shard_views(payloads@) == shard_payloads(all.take(i as int)),
        decreases shards@.len() - i,
    {
        let ghost before = shard_views(payloads@);
        proof {
            assert(all.take(i + 1).drop_last() =~= all.take(i as int));
            assert(all[i as int] == shards@[i as int]@);
        }
        if shards[i].len() >= 2 {
            let stated: u16 = read_u16(&shards[i], 0);
            let ghost shard = shards@[i as int]@;
            assert(shard.subrange(0, 2) =~= shard.take(2));
            if stated != 0 {
                let stated: usize = stated as usize;
                let end: usize = if stated <= shards[i].len() - 2 {
                    2 + stated
                } else {
                    shards[i].len()
                };
                let payload = copy_range(&shards[i], 2, end);
                payloads.push(payload);
                proof {
                    assert(shard_payload(shard) == Some(payload@)) by {
                        if 2 + stated > shard.len() {
                            assert(shard.subrange(2, end as int) =~= shard.skip(2));
                        }
                    }
                    assert(shard_views(payloads@) =~= before.push(payload@));
                }
            }
        }
        i += 1;
    }
    assert(all.take(i as int) =~= all);
    payloads
}

} // verus!
