//! Reed-Solomon erasure coding over GF(2^8).

use reed_solomon_erasure::galois_8::ReedSolomon;
use vstd::prelude::*;

verus! {

/// The contents of a list of shards.
pub open spec fn shard_views(shards: Seq<Vec<u8>>) -> Seq<Seq<u8>> {
    Seq::new(shards.len(), |i: int| shards[i]@)
}

/// The contents of a list of shards, some of which may be missing.
pub open spec fn partial_views(shards: Seq<Option<Vec<u8>>>) -> Seq<Option<Seq<u8>>> {
    Seq::new(
        shards.len(),
        |i: int|
            match shards[i] {
                Some(shard) => Some(shard@),
                None => None,
            },
    )
}

/// The numbers of data and parity shards that the code supports.
pub open spec fn code_supported(data: nat, parity: nat) -> bool {
    data > 0 && parity > 0 && data + parity <= 256
}

/// All shards are `len` bytes long.
pub open spec fn uniform(shards: Seq<Seq<u8>>, len: nat) -> bool {
    forall|i: int| 0 <= i < shards.len() ==> (#[trigger] shards[i]).len() == len
}

/// All shards that are there are `len` bytes long.
pub open spec fn partial_uniform(shards: Seq<Option<Seq<u8>>>, len: nat) -> bool {
    forall|i: int|
        0 <= i < shards.len() && (#[trigger] shards[i]) is Some ==> shards[i]->0.len() == len
}

/// How many shards are there.
pub open spec fn present_count(shards: Seq<Option<Seq<u8>>>) -> nat
    decreases shards.len(),
{
    if shards.len() == 0 {
        0
    } else {
        present_count(shards.drop_last()) + if shards.last() is Some {
            1nat
        } else {
            0nat
        }
    }
}

/// Every shard that is there is the one of `whole` at its place.
pub open spec fn agrees_with(shards: Seq<Option<Seq<u8>>>, whole: Seq<Seq<u8>>) -> bool {
    &&& shards.len() == whole.len()
    &&& forall|i: int|
        0 <= i < shards.len() && (#[trigger] shards[i]) is Some ==> shards[i]->0 == whole[i]
}

/// The `parity` shards that `ReedSolomon::encode` computes for the shards `data`.
pub uninterp spec fn rs_parity(data: Seq<Seq<u8>>, parity: nat) -> Seq<Seq<u8>>;

/// All `data + parity` shards, as `ReedSolomon::reconstruct` fills them in from those
/// that are there.
pub uninterp spec fn rs_recover(
    data: nat,
    parity: nat,
    shards: Seq<Option<Seq<u8>>>,
) -> Seq<Seq<u8>>;

/// Whichever `data` or more of the shards `whole` are there, all of them can be recovered.
pub open spec fn any_part_recovers(data: nat, parity: nat, whole: Seq<Seq<u8>>) -> bool {
    forall|part: Seq<Option<Seq<u8>>>|
        agrees_with(part, whole) && present_count(part) >= data ==> #[trigger] rs_recover(
            data,
            parity,
            part,
        ) == whole
}

/// `ReedSolomon::new`: a code exists for at least one data and one parity shard, with no
/// more than 256 shards in all.
#[verifier::external_body]
pub(crate) fn rs_supports(data_shards: usize, parity_shards: usize) -> (ok: bool)
    requires
        data_shards + parity_shards <= usize::MAX,
    ensures
        ok == code_supported(data_shards as nat, parity_shards as nat),
{
    ReedSolomon::new(data_shards, parity_shards).is_ok()
}

/// `ReedSolomon::encode`: overwrites the last `parity_shards` shards with the parity of the
/// first `data_shards`, which it leaves alone. The parity depends on the data alone and is
/// as long as the data. Any `data_shards` of the shards determine all of them: they are what
/// `ReedSolomon::reconstruct` gives back.
#[verifier::external_body]
pub(crate) fn rs_encode(data_shards: usize, parity_shards: usize, shards: &mut Vec<Vec<u8>>)
    requires
        code_supported(data_shards as nat, parity_shards as nat),
        old(shards)@.len() == data_shards + parity_shards,
        old(shards)@[0]@.len() > 0,
        uniform(shard_views(old(shards)@), old(shards)@[0]@.len()),
    ensures
        shard_views(final(shards)@) == shard_views(old(shards)@).take(data_shards as int)
            + rs_parity(shard_views(old(shards)@).take(data_shards as int), parity_shards as nat),
        final(shards)@.len() == data_shards + parity_shards,
        uniform(shard_views(final(shards)@), old(shards)@[0]@.len()),
        any_part_recovers(data_shards as nat, parity_shards as nat, shard_views(final(shards)@)),
{
    let code = ReedSolomon::new(data_shards, parity_shards).expect("code is supported");
    code.encode(shards).expect("shards fit the code")
}

/// `ReedSolomon::reconstruct`: fails unless at least `data_shards` shards are there and all
/// of those are of one length other than zero, and then touches nothing. Otherwise the
/// shards that are there stay, and the missing ones are filled in at the same length.
#[verifier::external_body]
pub(crate) fn rs_reconstruct(
    data_shards: usize,
    parity_shards: usize,
    shards: &mut Vec<Option<Vec<u8>>>,
) -> (ok: bool)
    requires
        code_supported(data_shards as nat, parity_shards as nat),
        old(shards)@.len() == data_shards + parity_shards,
    ensures
        ok == (present_count(partial_views(old(shards)@)) >= data_shards && exists|len: nat|
            len > 0 && #[trigger] partial_uniform(partial_views(old(shards)@), len)),
        !ok ==> partial_views(final(shards)@) == partial_views(old(shards)@),
        ok ==> {
            let whole = rs_recover(
                data_shards as nat,
                parity_shards as nat,
                partial_views(old(shards)@),
            );
            &&& whole.len() == data_shards + parity_shards
            &&& partial_views(final(shards)@) == whole.map_values(|s: Seq<u8>| Some(s))
            &&& agrees_with(partial_views(old(shards)@), whole)
            &&& forall|len: nat| #[trigger]
                partial_uniform(partial_views(old(shards)@), len) ==> uniform(whole, len)
        },
{
    let code = ReedSolomon::new(data_shards, parity_shards).expect("code is supported");
    code.reconstruct(shards).is_ok()
}

} // verus!
