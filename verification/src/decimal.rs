//! Exact decimal numbers for prices.
//!
//! A price is held as a whole number of units and the count of digits that
//! stand after the decimal point, so `19.99` is 1999 units at scale 2. Every
//! number is held in one form only, the one without a trailing zero after the
//! point: values are equal exactly when their numbers are.

use crate::digits::{
    accumulate, all_digits, append_number, ascii_bytes, digit_char, digit_text, digit_value,
    digits_value, is_digit, lemma_nat_digits, lemma_value_grows, lemma_value_push, nat_digits,
    reads_as, without_plus,
};
use vstd::arithmetic::div_mod::{lemma_breakdown, lemma_div_denominator, lemma_fundamental_div_mod};
use vstd::prelude::*;
use vstd::string::*;
use vstd::utf8::is_ascii_chars;

verus! {

/// Ten to the power `n`.
pub open spec fn pow10(n: nat) -> nat
    decreases n,
{
    if n == 0 {
        1
    } else {
        10 * pow10((n - 1) as nat)
    }
}

/// The digit of `units` that is worth `10^place`.
pub open spec fn digit_at(units: nat, place: nat) -> nat {
    (units / pow10(place)) % 10
}

/// The number `units / 10^scale`.
pub struct DecimalView {
    pub units: nat,
    pub scale: nat,
}

impl DecimalView {
    /// No digit after the point, or a last one that is not zero.
    pub open spec fn normal(self) -> bool {
        self.scale > 0 ==> self.units % 10 != 0
    }

    /// The same number without trailing zeros after the point.
    pub open spec fn reduced(self) -> DecimalView
        decreases self.scale,
    {
        if self.scale > 0 && self.units % 10 == 0 {
            DecimalView { units: self.units / 10, scale: (self.scale - 1) as nat }.reduced()
        } else {
            self
        }
    }

    /// Both stand for one number: `self.units / 10^self.scale` equals
    /// `other.units / 10^other.scale`, stated without division.
    pub open spec fn same_number(self, other: DecimalView) -> bool {
        self.units * pow10(other.scale) == other.units * pow10(self.scale)
    }

    /// The number taken `count` times.
    pub open spec fn times(self, count: nat) -> DecimalView {
        DecimalView { units: self.units * count, scale: self.scale }.reduced()
    }

    /// The part before the point.
    pub open spec fn whole(self) -> nat {
        self.units / pow10(self.scale)
    }

    /// The `scale` digits after the point.
    pub open spec fn fraction(self) -> Seq<char> {
        Seq::new(
            self.scale,
            |i: int| digit_char(digit_at(self.units, (self.scale - 1 - i) as nat)),
        )
    }

    /// How the number is shown: the digits of the whole part and, where there
    /// is a fraction, a point and the digits after it.
    pub open spec fn text(self) -> Seq<char> {
        if self.scale == 0 {
            nat_digits(self.units)
        } else {
            nat_digits(self.whole()) + seq!['.'] + self.fraction()
        }
    }
}

/// The index of the first `.` in `s`, or the length of `s` where it holds
/// none.
pub open spec fn point_index(s: Seq<char>) -> int
    decreases s.len(),
{
    if s.len() == 0 || s[0] == '.' {
        0
    } else {
        1 + point_index(s.drop_first())
    }
}

/// `s` without the zeros at its end.
pub open spec fn trim_zeros(s: Seq<char>) -> Seq<char>
    decreases s.len(),
{
    if s.len() > 0 && s.last() == '0' {
        trim_zeros(s.drop_last())
    } else {
        s
    }
}

/// What a typed number holds before its point, the sign left out.
pub open spec fn whole_digits(s: Seq<char>) -> Seq<char> {
    let body = without_plus(s);
    body.take(point_index(body))
}

/// What a typed number holds after its point; nothing where it has no point.
pub open spec fn fraction_digits(s: Seq<char>) -> Seq<char> {
    let body = without_plus(s);
    if point_index(body) < body.len() {
        body.skip(point_index(body) + 1)
    } else {
        Seq::empty()
    }
}

/// The number that `s` writes. A number is typed as an optional `+`, digits,
/// and optionally a point and more digits; a digit must stand on at least one
/// side of the point. Zeros at the end of the fraction do not count. A text
/// of another shape, or one whose units pass `u128::MAX`, writes no number.
pub open spec fn decimal_of(s: Seq<char>) -> Option<DecimalView> {
    let whole = whole_digits(s);
    let fraction = fraction_digits(s);
    let kept = trim_zeros(fraction);
    if all_digits(whole) && all_digits(fraction) && whole.len() + fraction.len() > 0
        && digits_value(whole + kept) <= u128::MAX {
        Some(DecimalView { units: digits_value(whole + kept), scale: kept.len() })
    } else {
        None
    }
}

/// A non-negative decimal number, exact.
#[derive(Clone, Copy, Debug, PartialEq, Eq, Structural)]
pub struct Decimal {
    units: u128,
    scale: usize,
}

impl View for Decimal {
    type V = DecimalView;

    open spec fn view(&self) -> DecimalView {
        DecimalView { units: self.spec_units() as nat, scale: self.spec_scale() as nat }
    }
}

impl Decimal {
    #[verifier::type_invariant]
    spec fn held_normal(self) -> bool {
        self.scale > 0 ==> self.units % 10 != 0
    }

    /// The number without its decimal point.
    pub closed spec fn spec_units(&self) -> u128 {
        self.units
    }

    /// The count of digits after the point.
    pub closed spec fn spec_scale(&self) -> usize {
        self.scale
    }

    /// The number `units / 10^scale`.
    pub fn new(units: u128, scale: usize) -> (r: Decimal)
        ensures
            r@ == (DecimalView { units: units as nat, scale: scale as nat }).reduced(),
            r@.normal(),
    {
        proof {
            lemma_reduced(DecimalView { units: units as nat, scale: scale as nat });
        }
        if units == 0 {
            proof {
                lemma_reduced_zero(scale as nat);
            }
            return Decimal { units: 0, scale: 0 };
        }
        let mut u: u128 = units;
        let mut s: usize = scale;
        while s > 0 && u % 10 == 0
            invariant
                (DecimalView { units: u as nat, scale: s as nat }).reduced() == (DecimalView {
                    units: units as nat,
                    scale: scale as nat,
                }).reduced(),
            decreases s,
        {
            u = u / 10;
            s = s - 1;
        }
        Decimal { units: u, scale: s }
    }

    /// Reads a number as it is typed: `20`, `19.99`, `+5`, `.5`, `5.`. `None`
    /// where the text has another shape or more units than a `u128` holds.
    pub fn parse(text: &str) -> (r: Option<Decimal>)
        ensures
            match r {
                Some(d) => decimal_of(text@) == Some(d@) && d@.normal(),
                None => decimal_of(text@) is None,
            },
    {
        proof {
            lemma_typed_is_normal(text@);
        }
        if !text.is_ascii() {
            proof {
                if decimal_of(text@) is Some {
                    lemma_decimal_is_ascii(text@);
                }
            }
            return None;
        }
        let bytes = ascii_bytes(text);
        let n: usize = bytes.len();
        let from: usize = if n > 0 && bytes[0] == 43 {
            1
        } else {
            0
        };
        let point: usize = find_point(bytes, from, Ghost(text@));
        let end: usize = find_kept_end(bytes, point, Ghost(text@));
        let ghost whole = whole_digits(text@);
        let ghost fraction = fraction_digits(text@);
        let ghost kept = trim_zeros(fraction);
        proof {
            lemma_layout(text@, from as int, point as int, end as int);
            lemma_value_grows(whole, kept);
            lemma_kept_digits(fraction);
        }
        if point == from && (point == n || point + 1 == n) {
            return None;
        }
        let before: u128 = match accumulate(
            bytes,
            from,
            point,
            0,
            Ghost(text@),
            Ghost(Seq::empty()),
        ) {
            Some(v) => v,
            None => {
                return None;
            },
        };
        if point == n {
            return Some(Decimal { units: before, scale: 0 });
        }
        let units: u128 = match accumulate(
            bytes,
            point + 1,
            end,
            before,
            Ghost(text@),
            Ghost(whole),
        ) {
            Some(v) => v,
            None => {
                return None;
            },
        };
        proof {
            if kept.len() > 0 {
                lemma_value_last(whole + kept);
            }
        }
        Some(Decimal { units, scale: end - (point + 1) })
    }

    /// The number without its decimal point: `1999` for `19.99`.
    pub fn units(&self) -> (r: u128)
        ensures
            r == self@.units,
    {
        self.units
    }

    /// The count of digits after the point: `2` for `19.99`.
    pub fn scale(&self) -> (r: usize)
        ensures
            r == self@.scale,
    {
        self.scale
    }

    /// The number taken `count` times, exactly; `None` where the product
    /// has more units than a `u128` holds.
    pub fn times(&self, count: usize) -> (r: Option<Decimal>)
        ensures
            match r {
                Some(product) => self@.units * count <= u128::MAX && product@ == self@.times(
                    count as nat,
                ) && product@.normal(),
                None => self@.units * count > u128::MAX,
            },
    {
        match self.units.checked_mul(count as u128) {
            Some(units) => Some(Decimal::new(units, self.scale)),
            None => None,
        }
    }

    /// Appends the text of the number to `out`.
    pub(crate) fn append_to(&self, out: &mut String)
        ensures
            final(out)@ == old(out)@ + self@.text(),
    {
        let ghost units = self.units as nat;
        let ghost scale = self.scale as nat;
        let mut rest: u128 = self.units;
        let mut low: Vec<u8> = Vec::new();
        let mut k: usize = 0;
        assert(units / pow10(0) == units) by (nonlinear_arith)
            requires
                pow10(0) == 1,
        ;
        while k < self.scale
            invariant
                units == self.units,
                k <= self.scale,
                rest == units / pow10(k as nat),
                low@.len() == k,
                forall|i: int| 0 <= i < k ==> (#[trigger] low@[i]) == digit_at(units, i as nat),
            decreases self.scale - k,
        {
            proof {
                lemma_shift_once_more(units, k as nat);
            }
            low.push((rest % 10) as u8);
            rest = rest / 10;
            k = k + 1;
        }
        append_number(out, rest);
        if self.scale > 0 {
            out.append(".");
            proof {
                reveal_strlit(".");
            }
            let ghost base = old(out)@ + nat_digits(self@.whole()) + seq!['.'];
            let ghost fraction = self@.fraction();
            let mut j: usize = k;
            while j > 0
                invariant
                    units == self.units,
                    scale == self.scale,
                    j <= k == self.scale,
                    low@.len() == k,
                    fraction == self@.fraction(),
                    forall|i: int| 0 <= i < k ==> (#[trigger] low@[i]) == digit_at(units, i as nat),
                    out@ == base + fraction.take(scale - j),
                decreases j,
            {
                j = j - 1;
                let d: u8 = low[j];
                out.append(digit_text(d));
            }
        }
    }

    /// The number as it is shown: `20`, `0.5`, `19.99`. The text reads back
    /// as the same number.
    pub fn to_text(&self) -> (r: String)
        ensures
            r@ == self@.text(),
            decimal_of(r@) == Some(self@),
    {
        proof {
            use_type_invariant(self);
            lemma_text_round_trip(self@);
        }
        let mut out = String::new();
        self.append_to(&mut out);
        out
    }
}

/// Finds the first point at or after `from`, or the end.
fn find_point(bytes: &[u8], from: usize, Ghost(chars): Ghost<Seq<char>>) -> (point: usize)
    requires
        from <= bytes.len(),
        reads_as(bytes@, chars),
    ensures
        from <= point <= bytes.len(),
        forall|j: int| from <= j < point ==> chars[j] != '.',
        point == bytes.len() || chars[point as int] == '.',
{
    let n: usize = bytes.len();
    let mut point: usize = from;
    while point < n && bytes[point] != 46
        invariant
            from <= point <= n == bytes.len(),
            reads_as(bytes@, chars),
            forall|j: int| from <= j < point ==> chars[j] != '.',
        decreases n - point,
    {
        point = point + 1;
    }
    point
}

/// Finds where the zeros at the end of the fraction start.
fn find_kept_end(bytes: &[u8], point: usize, Ghost(chars): Ghost<Seq<char>>) -> (end: usize)
    requires
        point <= bytes.len(),
        reads_as(bytes@, chars),
    ensures
        point <= end <= bytes.len(),
        point < bytes.len() ==> point < end,
        forall|j: int| end <= j < bytes.len() ==> chars[j] == '0',
        point + 1 < end ==> chars[end - 1] != '0',
{
    let n: usize = bytes.len();
    let mut end: usize = n;
    while end > point && end - 1 > point && bytes[end - 1] == 48
        invariant
            point <= end <= n == bytes.len(),
            point < n ==> point < end,
            reads_as(bytes@, chars),
            forall|j: int| end <= j < n ==> chars[j] == '0',
        decreases end,
    {
        end = end - 1;
    }
    end
}

/// A power of ten is positive.
pub proof fn lemma_pow10_positive(n: nat)
    ensures
        pow10(n) > 0,
    decreases n,
{
    if n > 0 {
        lemma_pow10_positive((n - 1) as nat);
    }
}

/// Reducing a number keeps the number: the reduced form stands for the same
/// number, has no trailing zero after the point and no more digits there than
/// before. A number without such a zero is its own reduced form.
pub proof fn lemma_reduced(d: DecimalView)
    ensures
        d.reduced().normal(),
        d.reduced().same_number(d),
        d.reduced().scale <= d.scale,
        d.normal() ==> d.reduced() == d,
    decreases d.scale,
{
    if d.scale > 0 && d.units % 10 == 0 {
        let next = DecimalView { units: d.units / 10, scale: (d.scale - 1) as nat };
        let r = next.reduced();
        lemma_reduced(next);
        assert(r.units * pow10(d.scale) == d.units * pow10(r.scale)) by (nonlinear_arith)
            requires
                r.units * pow10(next.scale) == next.units * pow10(r.scale),
                pow10(d.scale) == 10 * pow10(next.scale),
                d.units == 10 * next.units,
        ;
    }
}

/// Each number has one reduced form: two numbers in reduced form that are
/// the same number have the same units and the same scale.
pub proof fn lemma_one_form(a: DecimalView, b: DecimalView)
    requires
        a.normal(),
        b.normal(),
        a.same_number(b),
    ensures
        a == b,
{
    if a.scale < b.scale {
        lemma_shorter_differs(a, b);
    } else if b.scale < a.scale {
        lemma_shorter_differs(b, a);
    } else {
        lemma_pow10_positive(a.scale);
        assert(a.units == b.units) by (nonlinear_arith)
            requires
                a.units * pow10(a.scale) == b.units * pow10(a.scale),
                pow10(a.scale) > 0,
        ;
    }
}

/// Taking a number `count` times multiplies it by `count`, exactly: the
/// product `p`, held as `p.units / 10^p.scale`, is `count * d.units /
/// 10^d.scale`. It is in reduced form.
pub proof fn lemma_times_exact(d: DecimalView, count: nat)
    ensures
        d.times(count).units * pow10(d.scale) == d.units * count * pow10(d.times(count).scale),
        d.times(count).normal(),
        d.times(count).scale <= d.scale,
{
    lemma_reduced(DecimalView { units: d.units * count, scale: d.scale });
}

/// A number that was read from text is in reduced form.
pub proof fn lemma_typed_is_normal(s: Seq<char>)
    ensures
        decimal_of(s) matches Some(d) ==> d.normal(),
{
    if decimal_of(s) is Some {
        let whole = whole_digits(s);
        let kept = trim_zeros(fraction_digits(s));
        lemma_kept_digits(fraction_digits(s));
        if kept.len() > 0 {
            lemma_value_last(whole + kept);
        }
    }
}

/// A number that was shown reads back as the same number: what `text` gives,
/// `decimal_of` takes back, for every number in reduced form that a `u128`
/// can hold.
pub proof fn lemma_text_round_trip(d: DecimalView)
    requires
        d.normal(),
        d.units <= u128::MAX,
    ensures
        decimal_of(d.text()) == Some(d),
{
    let text = d.text();
    if d.scale == 0 {
        lemma_nat_digits(d.units);
        lemma_layout(text, 0, text.len() as int, text.len() as int);
        assert(text.subrange(0, text.len() as int) =~= text);
    } else {
        let whole = nat_digits(d.whole());
        let fraction = d.fraction();
        lemma_nat_digits(d.whole());
        lemma_fraction_value(d.units, d.scale);
        let point = whole.len() as int;
        assert(d.units / pow10(0) == d.units) by (nonlinear_arith)
            requires
                pow10(0) == 1,
        ;
        lemma_layout(text, 0, point, text.len() as int);
        assert(text.subrange(0, point) =~= whole);
        assert(text.subrange(point + 1, text.len() as int) =~= fraction);
        lemma_value_concat(whole, fraction);
        lemma_pow10_positive(d.scale);
        lemma_fundamental_div_mod(d.units as int, pow10(d.scale) as int);
    }
}

/// Dropping one more digit divides by ten once more.
proof fn lemma_shift_once_more(units: nat, place: nat)
    ensures
        (units / pow10(place)) / 10 == units / pow10(place + 1),
{
    lemma_pow10_positive(place);
    lemma_div_denominator(units as int, pow10(place) as int, 10);
}

/// A number with no units is zero at every scale.
proof fn lemma_reduced_zero(scale: nat)
    ensures
        (DecimalView { units: 0, scale }).reduced() == (DecimalView { units: 0, scale: 0 }),
    decreases scale,
{
    if scale > 0 {
        lemma_reduced_zero((scale - 1) as nat);
    }
}

/// Where the first point stands.
proof fn lemma_point_index(s: Seq<char>)
    ensures
        0 <= point_index(s) <= s.len(),
        point_index(s) < s.len() ==> s[point_index(s)] == '.',
        forall|j: int| 0 <= j < point_index(s) ==> s[j] != '.',
    decreases s.len(),
{
    if s.len() > 0 && s[0] != '.' {
        let rest = s.drop_first();
        lemma_point_index(rest);
        assert forall|j: int| 0 <= j < point_index(s) implies s[j] != '.' by {
            if j > 0 {
                assert(s[j] == rest[j - 1]);
            }
        }
    }
}

/// The first point is at `p` when none stands before `p` and `p` is a point
/// or the end.
proof fn lemma_point_found(s: Seq<char>, p: int)
    requires
        0 <= p <= s.len(),
        forall|j: int| 0 <= j < p ==> s[j] != '.',
        p == s.len() || s[p] == '.',
    ensures
        point_index(s) == p,
    decreases p,
{
    if p > 0 {
        lemma_point_found(s.drop_first(), p - 1);
    }
}

/// The zeros at the end start at `e` when all from `e` on are zeros and the
/// one before `e` is not.
proof fn lemma_trim_found(s: Seq<char>, e: int)
    requires
        0 <= e <= s.len(),
        forall|j: int| e <= j < s.len() ==> s[j] == '0',
        e == 0 || s[e - 1] != '0',
    ensures
        trim_zeros(s) == s.take(e),
    decreases s.len() - e,
{
    if e < s.len() {
        lemma_trim_found(s.drop_last(), e);
    }
}

/// The last digit of a run decides the value modulo ten.
proof fn lemma_value_last(s: Seq<char>)
    requires
        s.len() > 0,
    ensures
        digits_value(s) % 10 == digit_value(s.last()),
{
}

/// A text that writes a number holds ASCII characters only.
proof fn lemma_decimal_is_ascii(s: Seq<char>)
    requires
        decimal_of(s) is Some,
    ensures
        is_ascii_chars(s),
{
    let body = without_plus(s);
    let p = point_index(body);
    let whole = whole_digits(s);
    let fraction = fraction_digits(s);
    lemma_point_index(body);
    assert forall|i: int| 0 <= i < body.len() implies '\0' <= #[trigger] body[i] <= '\u{7f}' by {
        if i < p {
            assert(body[i] == whole[i]);
        } else if i > p {
            assert(body[i] == fraction[i - p - 1]);
        }
    }
    assert forall|i: int| 0 <= i < s.len() implies '\0' <= #[trigger] s[i] <= '\u{7f}' by {
        if s[0] == '+' {
            if i > 0 {
                assert(s[i] == body[i - 1]);
            }
        }
    }
}

/// How a typed number is laid out: its sign ends at `from`, its first point
/// stands at `point`, and what counts of its fraction ends at `end`.
proof fn lemma_layout(s: Seq<char>, from: int, point: int, end: int)
    requires
        from == (if s.len() > 0 && s[0] == '+' {
            1int
        } else {
            0int
        }),
        from <= point <= end <= s.len(),
        forall|j: int| from <= j < point ==> s[j] != '.',
        point == s.len() || s[point] == '.',
        point < s.len() ==> point < end,
        forall|j: int| end <= j < s.len() ==> s[j] == '0',
        point + 1 < end ==> s[end - 1] != '0',
    ensures
        whole_digits(s) == s.subrange(from, point),
        point < s.len() ==> fraction_digits(s) == s.subrange(point + 1, s.len() as int),
        point < s.len() ==> trim_zeros(fraction_digits(s)) == s.subrange(point + 1, end),
        point == s.len() ==> fraction_digits(s) == Seq::<char>::empty(),
        point == s.len() ==> trim_zeros(fraction_digits(s)) == Seq::<char>::empty(),
{
    lemma_point_found(without_plus(s), point - from);
    if point < s.len() {
        lemma_trim_found(fraction_digits(s), end - point - 1);
    }
}

/// What is kept of a run of digits is a run of digits, and the zeros that
/// were dropped are digits too.
proof fn lemma_kept_digits(s: Seq<char>)
    ensures
        all_digits(s) <==> all_digits(trim_zeros(s)),
        trim_zeros(s).len() <= s.len(),
        trim_zeros(s).len() > 0 ==> trim_zeros(s).last() != '0',
    decreases s.len(),
{
    if s.len() > 0 && s.last() == '0' {
        let front = s.drop_last();
        lemma_kept_digits(front);
        if all_digits(front) {
            assert forall|j: int| 0 <= j < s.len() implies is_digit(#[trigger] s[j]) by {
                if j < front.len() {
                    assert(s[j] == front[j]);
                }
            }
        }
    }
}

/// Powers of ten multiply as their exponents add.
proof fn lemma_pow10_adds(m: nat, n: nat)
    ensures
        pow10(m + n) == pow10(m) * pow10(n),
    decreases n,
{
    if n == 0 {
        assert(pow10(m) * pow10(0) == pow10(m)) by (nonlinear_arith)
            requires
                pow10(0) == 1,
        ;
    } else {
        lemma_pow10_adds(m, (n - 1) as nat);
        assert(10 * (pow10(m) * pow10((n - 1) as nat)) == pow10(m) * pow10(n)) by (nonlinear_arith)
            requires
                pow10(n) == 10 * pow10((n - 1) as nat),
        ;
    }
}

/// A number with fewer digits after the point than another one in reduced
/// form is another number.
proof fn lemma_shorter_differs(a: DecimalView, b: DecimalView)
    requires
        b.normal(),
        a.scale < b.scale,
    ensures
        !a.same_number(b),
{
    if a.same_number(b) {
        let k = (b.scale - a.scale) as nat;
        let p = pow10(a.scale);
        let q = pow10((k - 1) as nat);
        lemma_pow10_adds(a.scale, k);
        lemma_pow10_positive(a.scale);
        assert(b.units == 10 * (a.units * q)) by (nonlinear_arith)
            requires
                a.units * (p * (10 * q)) == b.units * p,
                p > 0,
        ;
    }
}

/// The value of two runs of digits, one after the other.
proof fn lemma_value_concat(a: Seq<char>, b: Seq<char>)
    ensures
        digits_value(a + b) == digits_value(a) * pow10(b.len()) + digits_value(b),
    decreases b.len(),
{
    if b.len() == 0 {
        assert(digits_value(a) * pow10(0) == digits_value(a)) by (nonlinear_arith)
            requires
                pow10(0) == 1,
        ;
    } else {
        let front = b.drop_last();
        lemma_value_concat(a, front);
        assert(a + b =~= (a + front).push(b.last()));
        lemma_value_push(a + front, b.last());
        assert((digits_value(a) * pow10(front.len()) + digits_value(front)) * 10 == digits_value(a)
            * pow10(b.len()) + digits_value(front) * 10) by (nonlinear_arith)
            requires
                pow10(b.len()) == 10 * pow10(front.len()),
        ;
    }
}

/// The digits after the point are digits, and they write what is left of the
/// units when the whole part is taken away.
proof fn lemma_fraction_value(units: nat, scale: nat)
    ensures
        all_digits((DecimalView { units, scale }).fraction()),
        digits_value((DecimalView { units, scale }).fraction()) == units % pow10(scale),
    decreases scale,
{
    let f = (DecimalView { units, scale }).fraction();
    if scale > 0 {
        let k = (scale - 1) as nat;
        let g = (DecimalView { units: units / 10, scale: k }).fraction();
        lemma_fraction_value(units / 10, k);
        assert forall|i: int| 0 <= i < k implies #[trigger] f.drop_last()[i] == g[i] by {
            let place = (k - 1 - i) as nat;
            lemma_pow10_positive(place);
            lemma_div_denominator(units as int, 10, pow10(place) as int);
        }
        assert(f.drop_last() =~= g);
        assert(units / pow10(0) == units) by (nonlinear_arith)
            requires
                pow10(0) == 1,
        ;
        lemma_pow10_positive(k);
        lemma_breakdown(units as int, 10, pow10(k) as int);
    }
}

} // verus!
