//! Big-endian integers as they stand on the wire.

use vstd::arithmetic::power::{lemma_pow0, lemma_pow1, lemma_pow_positive, pow};
use vstd::prelude::*;

verus! {

/// The `n` lowest bytes of `x`, most significant byte first.
pub open spec fn be_bytes(x: nat, n: nat) -> Seq<u8>
    decreases n,
{
    if n == 0 {
        Seq::empty()
    } else {
        be_bytes(x / 256, (n - 1) as nat).push((x % 256) as u8)
    }
}

/// The number that the bytes of `s` stand for, most significant byte first.
pub open spec fn be_value(s: Seq<u8>) -> nat
    decreases s.len(),
{
    if s.len() == 0 {
        0
    } else {
        be_value(s.drop_last()) * 256 + s.last() as nat
    }
}

/// `be_bytes` yields exactly `n` bytes.
pub broadcast proof fn lemma_be_bytes_len(x: nat, n: nat)
    ensures
        #[trigger] be_bytes(x, n).len() == n,
    decreases n,
{
    if n > 0 {
        lemma_be_bytes_len(x / 256, (n - 1) as nat);
    }
}

/// Powers of 256, one step at a time.
pub proof fn lemma_pow256_step(n: nat)
    requires
        n > 0,
    ensures
        pow(256, n) == 256 * pow(256, (n - 1) as nat),
        pow(256, n) > 0,
{
    reveal(pow);
    lemma_pow_positive(256, n);
}

/// Reading `n` bytes gives a number below `256^n`.
pub proof fn lemma_be_value_bound(s: Seq<u8>)
    ensures
        be_value(s) < pow(256, s.len()),
    decreases s.len(),
{
    if s.len() == 0 {
        lemma_pow0(256);
    } else {
        lemma_be_value_bound(s.drop_last());
        lemma_pow256_step(s.len());
    }
}

/// What was written is what is read back, as far as it fits.
pub proof fn lemma_be_roundtrip(x: nat, n: nat)
    requires
        x < pow(256, n),
    ensures
        be_value(be_bytes(x, n)) == x,
    decreases n,
{
    lemma_be_bytes_len(x, n);
    if n == 0 {
        lemma_pow0(256);
    } else {
        lemma_pow256_step(n);
        assert(x / 256 < pow(256, (n - 1) as nat));
        lemma_be_roundtrip(x / 256, (n - 1) as nat);
        assert(be_bytes(x, n).drop_last() =~= be_bytes(x / 256, (n - 1) as nat));
    }
}

/// Bytes that were read are written back unchanged.
pub proof fn lemma_be_roundtrip_bytes(s: Seq<u8>)
    ensures
        be_bytes(be_value(s), s.len()) == s,
    decreases s.len(),
{
    if s.len() > 0 {
        lemma_be_roundtrip_bytes(s.drop_last());
        assert(be_value(s) / 256 == be_value(s.drop_last()));
        assert(s.drop_last().push(s.last()) =~= s);
    }
}

/// The sizes of the integers in use, as powers of 256.
pub proof fn lemma_pow256_sizes()
    ensures
        pow(256, 1) == 0x100,
        pow(256, 2) == 0x1_0000,
        pow(256, 4) == 0x1_0000_0000,
        pow(256, 16) == 0x1_0000_0000_0000_0000_0000_0000_0000_0000,
{
    lemma_pow1(256);
    lemma_pow256_step(2);
    lemma_pow256_step(3);
    lemma_pow256_step(4);
    lemma_pow256_step(5);
    lemma_pow256_step(6);
    lemma_pow256_step(7);
    lemma_pow256_step(8);
    lemma_pow256_step(9);
    lemma_pow256_step(10);
    lemma_pow256_step(11);
    lemma_pow256_step(12);
    lemma_pow256_step(13);
    lemma_pow256_step(14);
    lemma_pow256_step(15);
    lemma_pow256_step(16);
}

/// Appends the `n` lowest bytes of `x`, most significant byte first.
pub fn push_be(out: &mut Vec<u8>, x: u128, n: usize)
    ensures
        final(out)@ == old(out)@ + be_bytes(x as nat, n as nat),
    decreases n,
{
    if n > 0 {
        push_be(out, x / 256, n - 1);
        out.push((x % 256) as u8);
    }
}

/// Reads the big-endian number in `buf[start..start + n]`.
pub fn read_be(buf: &[u8], start: usize, n: usize) -> (x: u128)
    requires
        n <= 16,
        start + n <= buf@.len(),
    ensures
        x == be_value(buf@.subrange(start as int, start + n)),
        x < pow(256, n as nat),
    decreases n,
{
    if n == 0 {
        proof {
            lemma_pow0(256);
        }
        0
    } else {
        let high: u128 = read_be(buf, start, n - 1);
        proof {
            assert(buf.len() == buf@.len());
            let s = buf@.subrange(start as int, start + n);
            assert(s.drop_last() =~= buf@.subrange(start as int, start + n - 1));
            lemma_be_value_bound(s);
            lemma_pow256_sizes();
            vstd::arithmetic::power::lemma_pow_increases(256, n as nat, 16);
        }
        high * 256 + buf[start + n - 1] as u128
    }
}

/// Appends `x` as two bytes.
pub fn push_u16(out: &mut Vec<u8>, x: u16)
    ensures
        final(out)@ == old(out)@ + be_bytes(x as nat, 2),
{
    push_be(out, x as u128, 2);
}

/// Appends `x` as four bytes.
pub fn push_u32(out: &mut Vec<u8>, x: u32)
    ensures
        final(out)@ == old(out)@ + be_bytes(x as nat, 4),
{
    push_be(out, x as u128, 4);
}

/// Appends `x` as sixteen bytes.
pub fn push_u128(out: &mut Vec<u8>, x: u128)
    ensures
        final(out)@ == old(out)@ + be_bytes(x as nat, 16),
{
    push_be(out, x, 16);
}

/// Reads the two bytes at `start`.
pub fn read_u16(buf: &[u8], start: usize) -> (x: u16)
    requires
        start + 2 <= buf@.len(),
    ensures
        x == be_value(buf@.subrange(start as int, start + 2)),
{
    let x: u128 = read_be(buf, start, 2);
    proof {
        lemma_pow256_sizes();
    }
    x as u16
}

/// Reads the four bytes at `start`.
pub fn read_u32(buf: &[u8], start: usize) -> (x: u32)
    requires
        start + 4 <= buf@.len(),
    ensures
        x == be_value(buf@.subrange(start as int, start + 4)),
{
    let x: u128 = read_be(buf, start, 4);
    proof {
        lemma_pow256_sizes();
    }
    x as u32
}

/// Reads the sixteen bytes at `start`.
pub fn read_u128(buf: &[u8], start: usize) -> (x: u128)
    requires
        start + 16 <= buf@.len(),
    ensures
        x == be_value(buf@.subrange(start as int, start + 16)),
{
    read_be(buf, start, 16)
}

/// Whether the bytes of `buf` from `start` on begin with `pattern`.
pub fn has_at(buf: &[u8], start: usize, pattern: &[u8]) -> (found: bool)
    requires
        start <= buf@.len(),
    ensures
        found == (start + pattern@.len() <= buf@.len() && buf@.subrange(
            start as int,
            start + pattern@.len(),
        ) == pattern@),
{
    if pattern.len() > buf.len() - start {
        return false;
    }
    let mut i: usize = 0;
    while i < pattern.len()
        invariant
            buf.len() == buf@.len(),
            start + pattern@.len() <= buf@.len(),
            i <= pattern@.len(),
            forall|j: int| 0 <= j < i ==> buf@[start + j] == #[trigger] pattern@[j],
        decreases pattern@.len() - i,
    {
        if buf[start + i] != pattern[i] {
            assert(buf@.subrange(start as int, start + pattern@.len())[i as int] != pattern@[i as int]);
            return false;
        }
        i += 1;
    }
    assert(buf@.subrange(start as int, start + pattern@.len()) =~= pattern@);
    true
}

/// Whether two byte strings hold the same bytes.
pub fn same_bytes(a: &[u8], b: &[u8]) -> (same: bool)
    ensures
        same == (a@ == b@),
{
    if a.len() != b.len() {
        return false;
    }
    let same: bool = has_at(a, 0, b);
    assert(a@.subrange(0, a@.len() as int) =~= a@);
    same
}

/// The bytes in an optional vector.
pub open spec fn optional_bytes(bytes: Option<Vec<u8>>) -> Option<Seq<u8>> {
    match bytes {
        Some(bytes) => Some(bytes@),
        None => None,
    }
}

/// Whether two optional byte strings are equal.
pub fn same_optional_bytes(a: &Option<Vec<u8>>, b: &Option<Vec<u8>>) -> (same: bool)
    ensures
        same == (optional_bytes(*a) == optional_bytes(*b)),
{
    match (a, b) {
        (Some(a), Some(b)) => same_bytes(a, b),
        (None, None) => true,
        _ => false,
    }
}

/// A copy of a byte string.
pub fn copy_bytes(bytes: &[u8]) -> (out: Vec<u8>)
    ensures
        out@ == bytes@,
{
    vstd::slice::slice_to_vec(bytes)
}

/// A copy of an optional byte string.
pub fn copy_optional_bytes(bytes: &Option<Vec<u8>>) -> (out: Option<Vec<u8>>)
    ensures
        optional_bytes(out) == optional_bytes(*bytes),
{
    match bytes {
        Some(bytes) => Some(copy_bytes(bytes)),
        None => None,
    }
}

/// A copy of `buf[start..end]`.
pub fn copy_range(buf: &[u8], start: usize, end: usize) -> (out: Vec<u8>)
    requires
        start <= end <= buf@.len(),
    ensures
        out@ == buf@.subrange(start as int, end as int),
{
    vstd::slice::slice_to_vec(vstd::slice::slice_subrange(buf, start, end))
}

/// Appends all of `bytes`.
pub fn push_all(out: &mut Vec<u8>, bytes: &[u8])
    ensures
        final(out)@ == old(out)@ + bytes@,
{
    let ghost before = out@;
    out.extend_from_slice(bytes);
    assert(out@ =~= before + bytes@);
}

/// Numbers stand on the wire most significant byte first: the byte at place `i` of `n` is the
/// digit of the number to the base 256 that is followed by `n - 1 - i` others. Read back, the
/// bytes are the number as far as it fits, and every number of `n` bytes is written as the
/// bytes that it was read from.
pub proof fn law_numbers_are_big_endian(x: nat, n: nat, i: int, s: Seq<u8>)
    requires
        0 <= i < n,
    ensures
        be_bytes(x, n).len() == n,
        be_bytes(x, n)[i] as nat == x as int / pow(256, (n - 1 - i) as nat) % 256,
        x < pow(256, n) ==> be_value(be_bytes(x, n)) == x,
        be_bytes(be_value(s), s.len()) == s,
{
    lemma_be_digit(x, n, i);
    if x < pow(256, n) {
        lemma_be_roundtrip(x, n);
    }
    lemma_be_roundtrip_bytes(s);
}

/// The byte at a place is a digit to the base 256.
proof fn lemma_be_digit(x: nat, n: nat, i: int)
    requires
        0 <= i < n,
    ensures
        be_bytes(x, n).len() == n,
        be_bytes(x, n)[i] as nat == x as int / pow(256, (n - 1 - i) as nat) % 256,
    decreases n,
{
    lemma_be_bytes_len(x, n);
    lemma_be_bytes_len(x / 256, (n - 1) as nat);
    if i == n - 1 {
        lemma_pow0(256);
    } else {
        let k = (n - 2 - i) as nat;
        lemma_be_digit(x / 256, (n - 1) as nat, i);
        lemma_pow256_step(k + 1);
        lemma_pow_positive(256, k);
        vstd::arithmetic::div_mod::lemma_div_denominator(x as int, 256, pow(256, k));
    }
}

/// Two bytes are a number of 16 bits, four one of 32 bits.
pub proof fn lemma_be_small(s: Seq<u8>)
    ensures
        s.len() == 2 ==> be_value(s) == s[0] * 0x100 + s[1],
        s.len() == 4 ==> be_value(s) == s[0] * 0x100_0000 + s[1] * 0x1_0000 + s[2] * 0x100 + s[3],
{
    reveal_with_fuel(be_value, 5);
}

/// The bytes of a number of 16 and of 32 bits.
pub proof fn lemma_be_bytes_small(x: nat)
    ensures
        be_bytes(x, 2).len() == 2,
        be_bytes(x, 2)[0] == x / 0x100 % 256,
        be_bytes(x, 2)[1] == x % 256,
        be_bytes(x, 4).len() == 4,
        be_bytes(x, 4)[0] == x / 0x100_0000 % 256,
        be_bytes(x, 4)[1] == x / 0x1_0000 % 256,
        be_bytes(x, 4)[2] == x / 0x100 % 256,
        be_bytes(x, 4)[3] == x % 256,
{
    reveal_with_fuel(be_bytes, 5);
    lemma_be_bytes_len(x, 2);
    lemma_be_bytes_len(x, 4);
}

/// The bytes in an optional vector are all of its bytes, and there are none only where there is
/// no vector.
pub proof fn law_optional_bytes_are_all_bytes(bytes: Option<Vec<u8>>)
    ensures
        optional_bytes(bytes) is Some <==> bytes is Some,
        bytes is Some ==> optional_bytes(bytes) == Some(bytes->0@),
{
}

} // verus!
