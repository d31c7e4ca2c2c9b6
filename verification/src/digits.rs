//! Whole numbers as text: the value of a run of decimal digits, and the
//! digits of a value.
//!
//! A count (a quantity in stock, a position in the list) is typed as an
//! optional `+` followed by one or more digits, and is shown as its digits
//! without leading zeros.

use vstd::prelude::*;
use vstd::string::*;
use vstd::utf8::is_ascii_chars;

verus! {

/// True when `c` is one of the ten decimal digits.
pub open spec fn is_digit(c: char) -> bool {
    '0' <= c <= '9'
}

/// The number a digit stands for; 0 for any other character.
pub open spec fn digit_value(c: char) -> nat {
    if is_digit(c) {
        (c as nat - '0' as nat) as nat
    } else {
        0
    }
}

/// The digit that stands for `d`, for `d` below ten.
pub open spec fn digit_char(d: nat) -> char {
    ('0' as nat + d) as char
}

/// True when every character of `s` is a decimal digit.
pub open spec fn all_digits(s: Seq<char>) -> bool {
    forall|i: int| 0 <= i < s.len() ==> is_digit(#[trigger] s[i])
}

/// The number that the digits of `s` write in base ten, most significant
/// digit first. The empty run is worth 0.
pub open spec fn digits_value(s: Seq<char>) -> nat
    decreases s.len(),
{
    if s.len() == 0 {
        0
    } else {
        digits_value(s.drop_last()) * 10 + digit_value(s.last())
    }
}

/// The digits of `n` in base ten, without leading zeros; `0` is written "0".
pub open spec fn nat_digits(n: nat) -> Seq<char>
    decreases n,
{
    if n < 10 {
        seq![digit_char(n)]
    } else {
        nat_digits(n / 10).push(digit_char(n % 10))
    }
}

/// `s` without the `+` it may start with.
pub open spec fn without_plus(s: Seq<char>) -> Seq<char> {
    if s.len() > 0 && s[0] == '+' {
        s.subrange(1, s.len() as int)
    } else {
        s
    }
}

/// The count that `s` writes: an optional `+`, then one or more digits whose
/// value fits in `usize`. Anything else writes no count.
pub open spec fn count_of(s: Seq<char>) -> Option<usize> {
    let d = without_plus(s);
    if d.len() > 0 && all_digits(d) && digits_value(d) <= usize::MAX {
        Some(digits_value(d) as usize)
    } else {
        None
    }
}

/// `bytes` holds the characters of `chars`, one byte each.
pub open spec fn reads_as(bytes: Seq<u8>, chars: Seq<char>) -> bool {
    &&& bytes.len() == chars.len()
    &&& forall|i: int|
        0 <= i < chars.len() ==> '\0' <= (#[trigger] chars[i]) <= '\u{7f}' && bytes[i]
            == chars[i] as u8
}

/// Appending a character multiplies the value by ten and adds the digit.
pub proof fn lemma_value_push(s: Seq<char>, c: char)
    ensures
        digits_value(s.push(c)) == digits_value(s) * 10 + digit_value(c),
{
    assert(s.push(c).drop_last() =~= s);
}

/// A run of digits is worth at least as much as any of its prefixes.
pub proof fn lemma_value_grows(a: Seq<char>, b: Seq<char>)
    ensures
        digits_value(a) <= digits_value(a + b),
    decreases b.len(),
{
    if b.len() > 0 {
        lemma_value_grows(a, b.drop_last());
        assert(a + b =~= (a + b.drop_last()).push(b.last()));
        lemma_value_push(a + b.drop_last(), b.last());
    }
}

/// The digits of a number are digits, and they write that number.
pub proof fn lemma_nat_digits(n: nat)
    ensures
        nat_digits(n).len() > 0,
        all_digits(nat_digits(n)),
        digits_value(nat_digits(n)) == n,
    decreases n,
{
    if n < 10 {
        let s = seq![digit_char(n)];
        assert(digits_value(s.drop_last()) == 0);
    } else {
        let front = nat_digits(n / 10);
        lemma_nat_digits(n / 10);
        lemma_value_push(front, digit_char(n % 10));
    }
}

/// A count that was shown reads back as the same count.
pub proof fn lemma_count_round_trip(n: usize)
    ensures
        count_of(nat_digits(n as nat)) == Some(n),
{
    lemma_nat_digits(n as nat);
}

/// A text that writes a count holds ASCII characters only.
proof fn lemma_count_is_ascii(s: Seq<char>)
    requires
        count_of(s) is Some,
    ensures
        is_ascii_chars(s),
{
    let d = without_plus(s);
    assert forall|i: int| 0 <= i < s.len() implies '\0' <= #[trigger] s[i] <= '\u{7f}' by {
        if s[0] == '+' {
            if i > 0 {
                assert(s[i] == d[i - 1]);
            }
        }
    }
}

/// The bytes of an ASCII text, which are its characters.
pub(crate) fn ascii_bytes(text: &str) -> (bytes: &[u8])
    requires
        is_ascii_chars(text@),
    ensures
        reads_as(bytes@, text@),
{
    let bytes = text.as_bytes();
    proof {
        is_ascii_spec_bytes(text);
    }
    bytes
}

/// Reads the digits `bytes[from..to]` as the continuation of a number whose
/// leading digits `head` are worth `start`. Gives the value of the whole, or
/// `None` where a byte is no digit or the value passes `u128::MAX`.
pub(crate) fn accumulate(
    bytes: &[u8],
    from: usize,
    to: usize,
    start: u128,
    Ghost(chars): Ghost<Seq<char>>,
    Ghost(head): Ghost<Seq<char>>,
) -> (r: Option<u128>)
    requires
        from <= to <= bytes.len(),
        reads_as(bytes@, chars),
        start == digits_value(head),
    ensures
        r == (if all_digits(chars.subrange(from as int, to as int)) && digits_value(
            head + chars.subrange(from as int, to as int),
        ) <= u128::MAX {
            Some(digits_value(head + chars.subrange(from as int, to as int)) as u128)
        } else {
            None
        }),
{
    let ghost run = chars.subrange(from as int, to as int);
    let mut acc: u128 = start;
    let mut i: usize = from;
    while i < to
        invariant
            from <= i <= to <= bytes.len(),
            reads_as(bytes@, chars),
            run == chars.subrange(from as int, to as int),
            all_digits(chars.subrange(from as int, i as int)),
            acc == digits_value(head + chars.subrange(from as int, i as int)),
        decreases to - i,
    {
        let b: u8 = bytes[i];
        let ghost c = chars[i as int];
        let ghost seen = head + chars.subrange(from as int, i as int);
        proof {
            assert(head + chars.subrange(from as int, i + 1) =~= seen.push(c));
            lemma_value_push(seen, c);
            assert(head + run =~= seen.push(c) + chars.subrange(i + 1, to as int));
            lemma_value_grows(seen.push(c), chars.subrange(i + 1, to as int));
        }
        if b < 48 || b > 57 {
            return None;
        }
        let d: u128 = (b - 48) as u128;
        let next: Option<u128> = match acc.checked_mul(10) {
            Some(m) => m.checked_add(d),
            None => None,
        };
        match next {
            Some(v) => {
                acc = v;
            },
            None => {
                return None;
            },
        }
        i += 1;
    }
    Some(acc)
}

/// The one-character text of a digit.
pub(crate) fn digit_text(d: u8) -> (r: &'static str)
    requires
        d < 10,
    ensures
        r@ == seq![digit_char(d as nat)],
{
    proof {
        reveal_strlit("0");
        reveal_strlit("1");
        reveal_strlit("2");
        reveal_strlit("3");
        reveal_strlit("4");
        reveal_strlit("5");
        reveal_strlit("6");
        reveal_strlit("7");
        reveal_strlit("8");
        reveal_strlit("9");
    }
    match d {
        0 => "0",
        1 => "1",
        2 => "2",
        3 => "3",
        4 => "4",
        5 => "5",
        6 => "6",
        7 => "7",
        8 => "8",
        _ => "9",
    }
}

/// Appends the digits of `n` to `out`.
pub(crate) fn append_number(out: &mut String, n: u128)
    ensures
        final(out)@ == old(out)@ + nat_digits(n as nat),
    decreases n,
{
    if n >= 10 {
        append_number(out, n / 10);
    }
    let d: u8 = (n % 10) as u8;
    out.append(digit_text(d));
}

/// The text of a count: its digits, without sign or leading zeros. The text
/// reads back as the same count.
pub fn count_text(n: usize) -> (r: String)
    ensures
        r@ == nat_digits(n as nat),
        count_of(r@) == Some(n),
{
    proof {
        lemma_count_round_trip(n);
    }
    let mut out = String::new();
    append_number(&mut out, n as u128);
    out
}

/// Reads a count as it is typed: an optional `+` and one or more digits,
/// with nothing before, between or after them. `None` where the text has
/// another shape or the number does not fit in `usize`.
pub fn parse_count(text: &str) -> (r: Option<usize>)
    ensures
        r == count_of(text@),
{
    if !text.is_ascii() {
        proof {
            if count_of(text@) is Some {
                lemma_count_is_ascii(text@);
            }
        }
        return None;
    }
    let bytes = ascii_bytes(text);
    let n: usize = bytes.len();
    let from: usize = if n > 0 && bytes[0] == 43 {
        1
    } else {
        0
    };
    proof {
        assert(without_plus(text@) =~= text@.subrange(from as int, n as int));
    }
    if from == n {
        return None;
    }
    match accumulate(bytes, from, n, 0, Ghost(text@), Ghost(Seq::empty())) {
        Some(v) => {
            if v <= usize::MAX as u128 {
                Some(v as usize)
            } else {
                None
            }
        },
        None => None,
    }
}

} // verus!
