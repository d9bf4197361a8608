//! The Internet checksum.

use vstd::prelude::*;

verus! {

/// The sum of the 16-bit words of `bytes`. A last odd byte is followed by a zero.
pub open spec fn word_sum(bytes: Seq<u8>) -> nat
    decreases bytes.len(),
{
    if bytes.len() == 0 {
        0
    } else if bytes.len() == 1 {
        bytes[0] as nat * 256
    } else {
        bytes[0] as nat * 256 + bytes[1] as nat + word_sum(bytes.skip(2))
    }
}

/// A sum in ones' complement arithmetic of 16 bits: the carries are added back in until
/// none is left.
pub open spec fn folded(sum: nat) -> nat {
    if sum == 0 {
        0
    } else {
        ((sum - 1) % 65535 + 1) as nat
    }
}

/// The checksum of RFC 1071: the complement of the ones' complement sum.
pub open spec fn inet_checksum(bytes: Seq<u8>) -> nat {
    (65535 - folded(word_sum(bytes))) as nat
}

/// `internet_checksum::checksum`: the RFC 1071 checksum of `bytes`, which is handed out most
/// significant byte first. Longer inputs take a path in which a carry can be lost.
#[verifier::external_body]
fn checksum_of_piece(bytes: &[u8]) -> (c: u16)
    requires
        bytes@.len() < 64,
    ensures
        c == inet_checksum(bytes@),
{
    u16::from_be_bytes(internet_checksum::checksum(bytes))
}

/// A folded sum is one of 16 bits.
pub proof fn lemma_folded_bound(sum: nat)
    ensures
        folded(sum) <= 65535,
        folded(sum) == 0 <==> sum == 0,
{
}

/// It does not matter when carries are folded in.
pub proof fn lemma_folded_add(a: nat, b: nat)
    ensures
        folded(folded(a) + folded(b)) == folded(a + b),
        folded(folded(a) + b) == folded(a + b),
{
    if a > 0 {
        let q = (a - 1) / 65535;
        assert(a - 1 == 65535 * q + (a - 1) % 65535) by {
            vstd::arithmetic::div_mod::lemma_fundamental_div_mod(a - 1, 65535);
        }
        assert(a == 65535 * q + folded(a));
        lemma_folded_multiple(folded(a) + b, q as nat);
        if b > 0 {
            let r = (b - 1) / 65535;
            assert(b - 1 == 65535 * r + (b - 1) % 65535) by {
                vstd::arithmetic::div_mod::lemma_fundamental_div_mod(b - 1, 65535);
            }
            assert(b == 65535 * r + folded(b));
            lemma_folded_multiple(folded(a) + folded(b), r as nat);
        }
    } else if b > 0 {
        let r = (b - 1) / 65535;
        vstd::arithmetic::div_mod::lemma_fundamental_div_mod(b - 1, 65535);
        lemma_folded_multiple(folded(b), r as nat);
    }
}

/// Multiples of 65535 do not count, beside something else.
pub proof fn lemma_folded_multiple(sum: nat, q: nat)
    requires
        sum > 0,
    ensures
        folded(65535 * q + sum) == folded(sum),
{
    vstd::arithmetic::div_mod::lemma_mod_multiples_vanish(q as int, sum - 1, 65535);
}

/// The words of two byte strings add up, where the first one has an even length.
pub proof fn lemma_word_sum_add(a: Seq<u8>, b: Seq<u8>)
    requires
        a.len() % 2 == 0,
    ensures
        word_sum(a + b) == word_sum(a) + word_sum(b),
    decreases a.len(),
{
    if a.len() == 0 {
        assert(a + b =~= b);
    } else {
        lemma_word_sum_add(a.skip(2), b);
        assert((a + b).skip(2) =~= a.skip(2) + b);
    }
}

/// Adds `bytes` to a folded sum.
#[verifier::rlimit(60)]
pub fn add_to_sum(sum: u16, bytes: &[u8]) -> (r: u16)
    ensures
        r == folded(sum as nat + word_sum(bytes@)),
{
    let ghost first = sum as nat;
    let mut sum: u16 = fold(sum as u32);
    let mut start: usize = 0;
    assert(bytes@.take(0) =~= Seq::empty());
    while start < bytes.len()
        invariant
            bytes.len() == bytes@.len(),
            start <= bytes@.len(),
            start % 62 == 0 || start == bytes@.len(),
            start < bytes@.len() ==> start % 62 == 0,
            sum == folded(first + word_sum(bytes@.take(start as int))),
        decreases bytes@.len() - start,
    {
        let end: usize = if bytes.len() - start < 62 {
            bytes.len()
        } else {
            start + 62
        };
        let piece = vstd::slice::slice_subrange(bytes, start, end);
        let c: u16 = checksum_of_piece(piece);
        let before: u16 = sum;
        sum = fold(before as u32 + (65535 - c) as u32);
        proof {
            let done = bytes@.take(start as int);
            lemma_folded_bound(word_sum(piece@));
            assert(done.len() % 2 == 0);
            lemma_word_sum_add(done, piece@);
            assert(bytes@.take(end as int) =~= done + piece@);
            lemma_folded_add(first + word_sum(done), word_sum(piece@));
        }
        start = end;
    }
    assert(bytes@.take(start as int) =~= bytes@);
    sum
}

/// Folds the carry of a sum in.
pub fn fold(sum: u32) -> (r: u16)
    ensures
        r == folded(sum as nat),
{
    if sum == 0 {
        0
    } else {
        ((sum - 1) % 65535 + 1) as u16
    }
}

/// The complement of a sum.
pub fn complement(sum: u16) -> (c: u16)
    ensures
        c == 65535 - sum,
{
    65535 - sum
}

/// A checksum that stands among the words that it was computed over, in place of a zero,
/// makes their sum 65535.
pub proof fn lemma_checksum_completes(sum: nat)
    ensures
        folded(sum + (65535 - folded(sum)) as nat) == 65535,
{
    if sum > 0 {
        let q = (sum - 1) / 65535;
        vstd::arithmetic::div_mod::lemma_fundamental_div_mod(sum - 1, 65535);
        assert(sum + 65535 - folded(sum) == 65535 * q + 65535);
        lemma_folded_multiple(65535, q as nat);
    }
}

/// The checksum of RFC 1071. The words of a byte string are summed up, where a byte at an even
/// place counts 256 times: so does each byte that is added at the end. A sum of 16 bits with
/// the carries added back in is congruent to the sum, and zero only where nothing was summed
/// up. The checksum makes the sum a multiple of 65535.
pub proof fn law_checksum_is_the_complement_of_the_sum(bytes: Seq<u8>, b: u8, sum: nat)
    ensures
        word_sum(Seq::empty()) == 0,
        word_sum(bytes.push(b)) == word_sum(bytes) + b * if bytes.len() % 2 == 0 {
            256int
        } else {
            1
        },
        folded(sum) <= 65535,
        folded(sum) as int % 65535 == sum as int % 65535,
        folded(sum) == 0 <==> sum == 0,
        inet_checksum(bytes) <= 65535,
        (word_sum(bytes) + inet_checksum(bytes)) as int % 65535 == 0,
        inet_checksum(bytes) == 65535 <==> word_sum(bytes) == 0,
{
    lemma_word_sum_push(bytes, b);
    lemma_folded_congruent(sum);
    lemma_folded_congruent(word_sum(bytes));
    let w = word_sum(bytes) as int;
    let f = folded(word_sum(bytes)) as int;
    assert((w + 65535 - f) % 65535 == 0) by (nonlinear_arith)
        requires
            w % 65535 == f % 65535,
    ;
}

/// What a byte at the end adds to the sum of the words.
proof fn lemma_word_sum_push(bytes: Seq<u8>, b: u8)
    ensures
        word_sum(bytes.push(b)) == word_sum(bytes) + b * if bytes.len() % 2 == 0 {
            256int
        } else {
            1
        },
    decreases bytes.len(),
{
    reveal_with_fuel(word_sum, 2);
    if bytes.len() >= 2 {
        assert(bytes.push(b).skip(2) =~= bytes.skip(2).push(b));
        lemma_word_sum_push(bytes.skip(2), b);
    } else if bytes.len() == 1 {
        assert(bytes.push(b).skip(2) =~= Seq::empty());
    }
}

/// Carries that are added back in do not count modulo 65535.
pub proof fn lemma_folded_congruent(sum: nat)
    ensures
        folded(sum) as int % 65535 == sum as int % 65535,
{
    if sum > 0 {
        vstd::arithmetic::div_mod::lemma_fundamental_div_mod(sum - 1, 65535);
        let q = (sum - 1) / 65535;
        assert(sum == 65535 * q + folded(sum));
        vstd::arithmetic::div_mod::lemma_mod_multiples_vanish(q, folded(sum) as int, 65535);
    }
}

} // verus!
