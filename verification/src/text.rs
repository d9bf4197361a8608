//! Text for people to read.

use vstd::arithmetic::power::{lemma_pow_positive, pow};
use vstd::prelude::*;
use vstd::string::*;

verus! {

/// A decimal digit.
pub open spec fn digit(d: nat) -> char {
    (48 + d) as char
}

/// A number in decimal notation.
pub open spec fn decimal(n: nat) -> Seq<char>
    decreases n,
{
    if n < 10 {
        seq![digit(n)]
    } else {
        decimal(n / 10).push(digit(n % 10))
    }
}

/// All texts in order, with `separator` between them.
pub open spec fn joined(texts: Seq<Seq<char>>, separator: Seq<char>) -> Seq<char>
    decreases texts.len(),
{
    if texts.len() == 0 {
        Seq::empty()
    } else if texts.len() == 1 {
        texts[0]
    } else {
        joined(texts.drop_last(), separator) + separator + texts.last()
    }
}

/// `text` followed by as many spaces as it takes to make it `width` characters long.
pub open spec fn padded(text: Seq<char>, width: nat) -> Seq<char> {
    if text.len() >= width {
        text
    } else {
        text + Seq::new((width - text.len()) as nat, |i: int| ' ')
    }
}

/// The contents of a list of texts.
pub open spec fn text_views(texts: Seq<String>) -> Seq<Seq<char>> {
    Seq::new(texts.len(), |i: int| texts[i]@)
}

/// What `String::from_utf8_lossy` makes of a byte string.
pub uninterp spec fn lossy_text(bytes: Seq<u8>) -> Seq<char>;

/// `String::from_utf8_lossy`: the text that the bytes encode in UTF-8, with replacement
/// characters where they encode none.
#[verifier::external_body]
pub(crate) fn from_utf8_lossy(bytes: &[u8]) -> (s: String)
    ensures
        s@ == lossy_text(bytes@),
{
    String::from_utf8_lossy(bytes).into_owned()
}

/// Appends a decimal digit.
fn push_digit(out: &mut String, d: u32)
    requires
        d < 10,
    ensures
        final(out)@ == old(out)@.push(digit(d as nat)),
{
    proof {
        reveal_strlit("0");
        reveal_strlit("1");
        reveal_strlit("2");
        reveal_strlit("3");
        reveal_strlit("4");
        reveal_strlit("5");
        reveal_strlit("6");
        reveal_strlit("7");
        reveal_strlit("8");
        reveal_strlit("9");
    }
    let text = if d == 0 {
        "0"
    } else if d == 1 {
        "1"
    } else if d == 2 {
        "2"
    } else if d == 3 {
        "3"
    } else if d == 4 {
        "4"
    } else if d == 5 {
        "5"
    } else if d == 6 {
        "6"
    } else if d == 7 {
        "7"
    } else if d == 8 {
        "8"
    } else {
        "9"
    };
    assert(text@ =~= seq![digit(d as nat)]);
    out.append(text);
    assert(out@ =~= old(out)@.push(digit(d as nat)));
}

/// Appends a number in decimal notation.
pub fn push_decimal(out: &mut String, n: u64)
    ensures
        final(out)@ == old(out)@ + decimal(n as nat),
    decreases n,
{
    if n >= 10 {
        push_decimal(out, n / 10);
    }
    push_digit(out, (n % 10) as u32);
    assert(out@ =~= old(out)@ + decimal(n as nat));
}

/// Whether a character occurs in a text.
pub fn contains_char(text: &str, c: char) -> (found: bool)
    ensures
        found == text@.contains(c),
{
    let len: usize = text.unicode_len();
    let mut i: usize = 0;
    while i < len
        invariant
            len == text@.len(),
            i <= len,
            forall|j: int| 0 <= j < i ==> text@[j] != c,
        decreases len - i,
    {
        if text.get_char(i) == c {
            return true;
        }
        i += 1;
    }
    false
}

/// Puts `separator` between texts.
pub fn join(texts: &Vec<String>, separator: &str) -> (out: String)
    ensures
        out@ == joined(text_views(texts@), separator@),
{
    let ghost all = text_views(texts@);
    let mut out: String = String::new();
    let mut i: usize = 0;
    assert(all.take(0) =~= Seq::empty());
    assert(out@ =~= joined(all.take(0), separator@));
    while i < texts.len()
        invariant
            i <= texts@.len(),
            all == text_views(texts@),
            out@ == joined(all.take(i as int), separator@),
        decreases texts@.len() - i,
    {
        proof {
            assert(all.take(i + 1).drop_last() =~= all.take(i as int));
            assert(all[i as int] == texts@[i as int]@);
        }
        if i > 0 {
            out.append(separator);
        }
        out.append(texts[i].as_str());
        assert(out@ =~= joined(all.take(i + 1), separator@));
        i += 1;
    }
    assert(all.take(i as int) =~= all);
    out
}

/// Fills a text up with spaces.
pub fn pad(text: String, width: usize) -> (out: String)
    ensures
        out@ == padded(text@, width as nat),
{
    let mut out: String = text;
    let mut len: usize = out.as_str().unicode_len();
    proof {
        reveal_strlit(" ");
    }
    let ghost first = out@;
    while len < width
        invariant
            len == out@.len(),
            first.len() <= len,
            len <= width || len == first.len(),
            out@ == padded(first, len as nat),
        decreases width - len,
    {
        let ghost before = out@;
        proof {
            reveal_strlit(" ");
        }
        out.append(" ");
        assert(out@ =~= before.push(' '));
        len += 1;
        assert(out@ =~= padded(first, len as nat));
    }
    assert(out@ =~= padded(first, width as nat));
    out
}

/// The text of a list of hosts or endpoints: the only one, or all in brackets.
pub open spec fn listed(texts: Seq<Seq<char>>) -> Seq<char> {
    if texts.len() > 1 {
        seq!['['] + joined(texts, seq![',', ' ']) + seq![']']
    } else {
        texts[0]
    }
}

/// Writes a list of hosts or endpoints.
pub fn list(texts: &Vec<String>) -> (out: String)
    requires
        texts@.len() > 0,
    ensures
        out@ == listed(text_views(texts@)),
{
    if texts.len() > 1 {
        proof {
            reveal_strlit("[");
            reveal_strlit(", ");
            reveal_strlit("]");
        }
        let mut out: String = String::new();
        out.append("[");
        out.append(join(texts, ", ").as_str());
        out.append("]");
        assert(", "@ =~= seq![',', ' ']);
        assert(out@ =~= listed(text_views(texts@)));
        out
    } else {
        texts[0].clone()
    }
}

/// A number is written in decimal digits: the one that is followed by `k` others is the number of
/// the powers of ten with exponent `k` in it, as far as it goes. There are as many digits as it
/// takes, and so no zero in front.
pub proof fn law_decimal_notation(n: nat, k: nat)
    ensures
        decimal(n).len() > 0,
        k < decimal(n).len() ==> decimal(n)[decimal(n).len() - 1 - k] as u32 == 48 + n as int / pow(
            10,
            k,
        ) % 10,
        n < pow(10, decimal(n).len()),
        decimal(n).len() > 1 ==> n >= pow(10, (decimal(n).len() - 1) as nat),
    decreases n,
{
    reveal(pow);
    reveal_with_fuel(pow, 2);
    let text = decimal(n);
    if n < 10 {
        assert(text.len() == 1);
        assert(text[0] == digit(n));
        assert(pow(10, 0) == 1);
        assert(n as int / 1 % 10 == n);
        assert(text[0] as u32 == 48 + n);
        assert(pow(10, 1) == 10 * pow(10, 0));
    } else {
        let rest = decimal(n / 10);
        let len = rest.len();
        law_decimal_notation(n / 10, if k > 0 {
            (k - 1) as nat
        } else {
            0
        });
        assert(text.len() == len + 1);
        assert(pow(10, len + 1) == 10 * pow(10, len));
        assert(pow(10, len) == 10 * pow(10, (len - 1) as nat));
        if len == 1 {
            assert(pow(10, 0) == 1);
        }
        if k == 0 {
            assert(text[len as int] == digit(n % 10));
            assert(pow(10, 0) == 1);
            assert(n as int / 1 % 10 == n % 10);
            assert(text[len as int] as u32 == 48 + n % 10);
        } else if k < text.len() {
            let less = (k - 1) as nat;
            assert(text[text.len() - 1 - k] == rest[len - 1 - less]);
            assert(pow(10, k) == 10 * pow(10, less));
            lemma_pow_positive(10, less);
            vstd::arithmetic::div_mod::lemma_div_denominator(n as int, 10, pow(10, less));
        }
    }
}

/// A text that is filled up begins with itself, is as long as asked for or longer, and has
/// nothing but spaces behind it.
pub proof fn law_texts_are_filled_up_with_spaces(text: Seq<char>, width: nat)
    ensures
        text.is_prefix_of(padded(text, width)),
        padded(text, width).len() == if text.len() < width {
            width
        } else {
            text.len()
        },
        forall|i: int|
            text.len() <= i < padded(text, width).len() ==> #[trigger] padded(text, width)[i] == ' ',
{
}

/// A list of one text is that text. A list of several stands in brackets, each behind the one
/// before it, a comma and a space.
pub proof fn law_lists_hold_all_texts(texts: Seq<Seq<char>>, next: Seq<char>)
    ensures
        listed(seq![next]) == next,
        texts.len() == 1 ==> listed(texts.push(next)) == seq!['['] + texts[0] + seq![',', ' ']
            + next + seq![']'],
        texts.len() > 1 ==> listed(texts.push(next)) == listed(texts).drop_last() + seq![',', ' ']
            + next + seq![']'],
{
    reveal_with_fuel(joined, 2);
    let more = texts.push(next);
    assert(more.drop_last() =~= texts);
    if texts.len() == 1 {
        assert(listed(more) =~= seq!['['] + texts[0] + seq![',', ' '] + next + seq![']']);
    }
    if texts.len() > 1 {
        let all = joined(texts, seq![',', ' ']);
        assert(listed(texts).drop_last() =~= seq!['['] + all);
        assert(listed(more) =~= listed(texts).drop_last() + seq![',', ' '] + next + seq![']']);
    }
}

/// A list of texts is seen as their contents, each in its place.
pub proof fn law_texts_are_seen_whole(texts: Seq<String>, i: int)
    ensures
        text_views(texts).len() == texts.len(),
        0 <= i < texts.len() ==> text_views(texts)[i] == texts[i]@,
{
}

} // verus!
