//! Fixed-point amounts with six decimal places and saturating arithmetic.

use crate::text::{
    all_digits,
    digits_of,
    digits_value,
    parse_digits,
    push_number,
    split,
    split_spans,
    string_from,
    to_chars,
    Span,
};
use vstd::prelude::*;

verus! {

/// Number of fixed-point steps in one whole unit.
pub const SCALE: i64 = 1_000_000;

/// A signed amount counted in millionths of a unit.
///
/// Prices, quantities, fees and profit figures are all `Decimal`s. Arithmetic
/// never wraps and never panics: a result that does not fit is pinned to the
/// nearest representable bound.
#[derive(Clone, Copy, Debug, PartialEq, Eq, Structural)]
pub struct Decimal {
    pub micros: i64,
}

impl View for Decimal {
    type V = int;

    open spec fn view(&self) -> int {
        self.micros as int
    }
}

/// The amount behind an optional `Decimal`, in millionths.
pub open spec fn micros_of(d: Option<Decimal>) -> Option<int> {
    match d {
        Some(v) => Some(v@),
        None => None,
    }
}

/// The representable value nearest to `x`.
pub open spec fn clamp(x: int) -> int {
    if x < i64::MIN {
        i64::MIN as int
    } else if x > i64::MAX {
        i64::MAX as int
    } else {
        x
    }
}

/// Quotient of `x` by a positive `d`, rounded toward zero.
pub open spec fn trunc_div(x: int, d: int) -> int
    recommends
        d > 0,
{
    if x >= 0 {
        x / d
    } else {
        -((-x) / d)
    }
}

/// Quotient of `x` by a non-zero `d`, rounded toward zero.
pub open spec fn signed_trunc_div(x: int, d: int) -> int
    recommends
        d != 0,
{
    if d > 0 {
        trunc_div(x, d)
    } else {
        trunc_div(-x, -d)
    }
}

/// Sum of two amounts, clamped.
pub open spec fn spec_add(a: int, b: int) -> int {
    clamp(a + b)
}

/// Difference of two amounts, clamped.
pub open spec fn spec_sub(a: int, b: int) -> int {
    clamp(a - b)
}

/// The amount with its sign turned, clamped.
pub open spec fn spec_neg(a: int) -> int {
    clamp(-a)
}

/// Magnitude of an amount, clamped.
pub open spec fn spec_abs(a: int) -> int {
    clamp(if a < 0 { -a } else { a })
}

/// Fixed-point product: the exact product of the two amounts, rounded toward
/// zero to a whole number of millionths, then clamped.
pub open spec fn spec_mul(a: int, b: int) -> int {
    clamp(trunc_div(a * b, SCALE as int))
}

/// Fixed-point quotient for a non-zero divisor, rounded toward zero, then
/// clamped.
pub open spec fn spec_div(a: int, b: int) -> int
    recommends
        b != 0,
{
    clamp(signed_trunc_div(a * SCALE, b))
}

/// Quotient of an amount by a positive count, rounded toward zero.
pub open spec fn spec_div_count(a: int, n: int) -> int
    recommends
        n > 0,
{
    clamp(trunc_div(a, n))
}

/// The fraction `num / den` of two counts as a fixed-point amount.
pub open spec fn spec_ratio(num: int, den: int) -> int
    recommends
        num >= 0,
        den > 0,
{
    clamp((num * SCALE) / den)
}

fn clamp_i128(x: i128) -> (r: i64)
    ensures
        r == clamp(x as int),
{
    if x < -9_223_372_036_854_775_808i128 {
        i64::MIN
    } else if x > 9_223_372_036_854_775_807i128 {
        i64::MAX
    } else {
        x as i64
    }
}

fn trunc_div_i128(x: i128, d: i128) -> (r: i128)
    requires
        d > 0,
        x > i128::MIN,
    ensures
        r == trunc_div(x as int, d as int),
        x >= 0 ==> 0 <= r <= x,
        x < 0 ==> x <= r <= 0,
{
    if x >= 0 {
        let q: i128 = x / d;
        proof {
            vstd::arithmetic::div_mod::lemma_div_pos_is_pos(x as int, d as int);
            vstd::arithmetic::div_mod::lemma_div_is_ordered_by_denominator(x as int, 1, d as int);
        }
        q
    } else {
        let m: i128 = -x;
        let q: i128 = m / d;
        proof {
            vstd::arithmetic::div_mod::lemma_div_pos_is_pos(m as int, d as int);
            vstd::arithmetic::div_mod::lemma_div_is_ordered_by_denominator(m as int, 1, d as int);
        }
        -q
    }
}

impl Decimal {
    /// The representable amount nearest to `x` millionths.
    pub open spec fn nearest(x: int) -> Decimal {
        Decimal { micros: clamp(x) as i64 }
    }

    /// The amount 0.
    pub fn zero() -> (r: Decimal)
        ensures
            r@ == 0,
    {
        Decimal { micros: 0 }
    }

    /// The amount 1.
    pub fn one() -> (r: Decimal)
        ensures
            r@ == SCALE,
    {
        Decimal { micros: SCALE }
    }

    /// The amount of `micros` millionths.
    pub fn from_micros(micros: i64) -> (r: Decimal)
        ensures
            r@ == micros,
    {
        Decimal { micros }
    }

    /// The whole number `units` as an amount.
    pub fn from_units(units: i64) -> (r: Decimal)
        ensures
            r@ == clamp(units * SCALE),
    {
        let wide: i128 = (units as i128) * 1_000_000;
        Decimal { micros: clamp_i128(wide) }
    }

    /// The representable amount nearest to `micros` millionths.
    pub fn saturate(micros: i128) -> (r: Decimal)
        ensures
            r == Decimal::nearest(micros as int),
    {
        Decimal { micros: clamp_i128(micros) }
    }

    /// The amount in millionths.
    pub fn micros(&self) -> (r: i64)
        ensures
            r == self@,
    {
        self.micros
    }

    /// Whether the amount is zero.
    pub fn is_zero(&self) -> (r: bool)
        ensures
            r == (self@ == 0),
    {
        self.micros == 0
    }

    /// Whether the amount is above zero.
    pub fn is_positive(&self) -> (r: bool)
        ensures
            r == (self@ > 0),
    {
        self.micros > 0
    }

    /// Whether the amount is below zero.
    pub fn is_negative(&self) -> (r: bool)
        ensures
            r == (self@ < 0),
    {
        self.micros < 0
    }

    /// Whether `self` is smaller than `other`.
    pub fn lt(&self, other: &Decimal) -> (r: bool)
        ensures
            r == (self@ < other@),
    {
        self.micros < other.micros
    }

    /// Whether `self` is at most `other`.
    pub fn le(&self, other: &Decimal) -> (r: bool)
        ensures
            r == (self@ <= other@),
    {
        self.micros <= other.micros
    }

    /// `self + other`, pinned to the bounds.
    pub fn add(&self, other: &Decimal) -> (r: Decimal)
        ensures
            r@ == spec_add(self@, other@),
    {
        Decimal { micros: clamp_i128(self.micros as i128 + other.micros as i128) }
    }

    /// `self - other`, pinned to the bounds.
    pub fn sub(&self, other: &Decimal) -> (r: Decimal)
        ensures
            r@ == spec_sub(self@, other@),
    {
        Decimal { micros: clamp_i128(self.micros as i128 - other.micros as i128) }
    }

    /// `-self`, pinned to the upper bound for the lowest amount.
    pub fn neg(&self) -> (r: Decimal)
        ensures
            r@ == spec_neg(self@),
    {
        Decimal { micros: clamp_i128(-(self.micros as i128)) }
    }

    /// The magnitude of `self`, pinned to the upper bound for the lowest amount.
    pub fn abs(&self) -> (r: Decimal)
        ensures
            r@ == spec_abs(self@),
            r@ >= 0,
    {
        let wide: i128 = self.micros as i128;
        Decimal { micros: clamp_i128(if wide < 0 { -wide } else { wide }) }
    }

    /// The larger of two amounts.
    pub fn max(&self, other: &Decimal) -> (r: Decimal)
        ensures
            r@ == if self@ >= other@ { self@ } else { other@ },
    {
        if self.micros >= other.micros {
            *self
        } else {
            *other
        }
    }

    /// `self * other`, rounded toward zero and pinned to the bounds.
    pub fn mul(&self, other: &Decimal) -> (r: Decimal)
        ensures
            r@ == spec_mul(self@, other@),
    {
        let a: i128 = self.micros as i128;
        let b: i128 = other.micros as i128;
        assert(-0x4000_0000_0000_0000_0000_0000_0000_0000 <= a * b
            <= 0x4000_0000_0000_0000_0000_0000_0000_0000) by (nonlinear_arith)
            requires
                -0x8000_0000_0000_0000 <= a <= 0x8000_0000_0000_0000,
                -0x8000_0000_0000_0000 <= b <= 0x8000_0000_0000_0000,
        ;
        let p: i128 = a * b;
        Decimal { micros: clamp_i128(trunc_div_i128(p, SCALE as i128)) }
    }

    /// `self / other`, or `None` when `other` is zero.
    pub fn checked_div(&self, other: &Decimal) -> (r: Option<Decimal>)
        ensures
            other@ == 0 ==> r is None,
            other@ != 0 ==> r is Some && r->0@ == spec_div(self@, other@),
    {
        if other.micros == 0 {
            return None;
        }
        let a: i128 = (self.micros as i128) * 1_000_000;
        let b: i128 = other.micros as i128;
        let q: i128 = if b > 0 {
            trunc_div_i128(a, b)
        } else {
            trunc_div_i128(-a, -b)
        };
        Some(Decimal { micros: clamp_i128(q) })
    }

    /// `self / n` for a positive count `n`, or `None` when `n` is zero.
    pub fn checked_div_count(&self, n: usize) -> (r: Option<Decimal>)
        ensures
            n == 0 ==> r is None,
            n != 0 ==> r is Some && r->0@ == spec_div_count(self@, n as int),
    {
        if n == 0 {
            return None;
        }
        let q: i128 = trunc_div_i128(self.micros as i128, n as i128);
        Some(Decimal { micros: clamp_i128(q) })
    }

    /// The mean of `count` amounts that add up to `total` millionths, rounded
    /// toward zero; `None` when `count` is zero.
    pub fn mean(total: i128, count: usize) -> (r: Option<Decimal>)
        requires
            total > i128::MIN,
        ensures
            count == 0 ==> r is None,
            count != 0 ==> r == Some(Decimal::nearest(trunc_div(total as int, count as int))),
    {
        if count == 0 {
            return None;
        }
        let q: i128 = trunc_div_i128(total, count as i128);
        Some(Decimal { micros: clamp_i128(q) })
    }

    /// The fraction `num / den` of two counts, or `None` when `den` is zero.
    pub fn ratio(num: usize, den: usize) -> (r: Option<Decimal>)
        ensures
            den == 0 ==> r is None,
            den != 0 ==> r is Some && r->0@ == spec_ratio(num as int, den as int),
    {
        if den == 0 {
            return None;
        }
        let p: i128 = (num as i128) * 1_000_000;
        let q: i128 = p / (den as i128);
        Some(Decimal { micros: clamp_i128(q) })
    }
}

/// Ten to the power `n`.
pub open spec fn pow10(n: nat) -> nat
    decreases n,
{
    if n == 0 {
        1
    } else {
        10 * pow10((n - 1) as nat)
    }
}

/// `s` without a leading sign.
pub open spec fn unsigned_part(s: Seq<char>) -> Seq<char> {
    if s.len() > 0 && (s[0] == '-' || s[0] == '+') {
        s.drop_first()
    } else {
        s
    }
}

/// The millionths that the digits after a decimal point stand for. Digits
/// past the sixth are dropped.
pub open spec fn fraction_micros(frac: Seq<char>) -> nat {
    if frac.len() >= 6 {
        digits_value(frac.take(6))
    } else {
        digits_value(frac) * pow10((6 - frac.len()) as nat)
    }
}

/// Whether the unsigned text `u` writes a number in plain decimal writing:
/// digits with at most one decimal point among them, and at least one digit.
pub open spec fn is_plain_number(u: Seq<char>) -> bool {
    let parts = split(u, '.');
    &&& parts.len() <= 2
    &&& all_digits(parts[0])
    &&& parts.len() == 2 ==> all_digits(parts[1])
    &&& parts[0].len() + (if parts.len() == 2 {
        parts[1].len()
    } else {
        0
    }) > 0
}

/// The digits after the decimal point of a plain number; none where it has
/// no point.
pub open spec fn fraction_digits(u: Seq<char>) -> Seq<char> {
    let parts = split(u, '.');
    if parts.len() == 2 {
        parts[1]
    } else {
        Seq::empty()
    }
}

/// The millionths that a plain number writes.
pub open spec fn plain_micros(u: Seq<char>) -> nat {
    digits_value(split(u, '.')[0]) * SCALE as nat + fraction_micros(fraction_digits(u))
}

/// Whether `c` announces an exponent.
pub open spec fn is_exponent_mark(c: char) -> bool {
    c == 'e' || c == 'E'
}

/// Index of the first `e` or `E` of the text; its length where it has none.
pub open spec fn exponent_mark(s: Seq<char>) -> int
    decreases s.len(),
{
    if s.len() == 0 || is_exponent_mark(s[0]) {
        0
    } else {
        1 + exponent_mark(s.drop_first())
    }
}

/// Whether `t` writes an exponent: an optional sign and at least one digit,
/// for a number of at most `u64::MAX`.
pub open spec fn is_exponent_text(t: Seq<char>) -> bool {
    let digits = unsigned_part(t);
    digits.len() > 0 && all_digits(digits) && digits_value(digits) <= u64::MAX
}

/// The exponent that `t` writes.
pub open spec fn exponent_value(t: Seq<char>) -> int {
    if t.len() > 0 && t[0] == '-' {
        -(digits_value(unsigned_part(t)) as int)
    } else {
        digits_value(unsigned_part(t)) as int
    }
}

/// The number that `digits` write, times ten to the power `k`, rounded toward
/// zero: for a negative `k` the last `-k` digits are dropped.
pub open spec fn shifted_value(digits: Seq<char>, k: int) -> nat {
    if k >= 0 {
        digits_value(digits) * pow10(k as nat)
    } else if digits.len() + k <= 0 {
        0
    } else {
        digits_value(digits.take(digits.len() + k))
    }
}

/// Whether `s` writes a decimal number: an optional sign, a number in plain
/// decimal writing, and optionally `e` or `E` with an exponent.
pub open spec fn is_decimal_text(s: Seq<char>) -> bool {
    let u = unsigned_part(s);
    let m = exponent_mark(u);
    is_plain_number(u.take(m)) && (m < u.len() ==> is_exponent_text(u.skip(m + 1)))
}

/// The magnitude, in millionths, that a decimal text writes. Without an
/// exponent these are the whole units and the first six decimal places. With
/// an exponent they are all the digits of the number, shifted by the exponent
/// and by the six places of an amount, less the decimal places that the
/// number has. What is below a millionth is dropped either way.
pub open spec fn decimal_text_magnitude(s: Seq<char>) -> nat {
    let u = unsigned_part(s);
    let m = exponent_mark(u);
    let plain = u.take(m);
    if m < u.len() {
        shifted_value(
            split(plain, '.')[0] + fraction_digits(plain),
            6 + exponent_value(u.skip(m + 1)) - fraction_digits(plain).len(),
        )
    } else {
        plain_micros(plain)
    }
}

/// The amount, in millionths, that a decimal text writes.
pub open spec fn decimal_text_micros(s: Seq<char>) -> int {
    if s.len() > 0 && s[0] == '-' {
        -(decimal_text_magnitude(s) as int)
    } else {
        decimal_text_magnitude(s) as int
    }
}

/// What a text reads as: the amount it writes, if it is a decimal text whose
/// magnitude fits.
pub open spec fn read_decimal(s: Seq<char>) -> Option<int> {
    if is_decimal_text(s) && decimal_text_magnitude(s) <= i64::MAX {
        Some(decimal_text_micros(s))
    } else {
        None
    }
}

/// A run of `n` digits writes a number below ten to the power `n`.
pub proof fn lemma_digits_value_bound(s: Seq<char>)
    requires
        all_digits(s),
    ensures
        digits_value(s) < pow10(s.len()),
    decreases s.len(),
{
    if s.len() > 0 {
        assert forall|i: int| 0 <= i < s.drop_last().len() implies crate::text::is_digit(
            #[trigger] s.drop_last()[i],
        ) by {
            assert(s.drop_last()[i] == s[i]);
        }
        lemma_digits_value_bound(s.drop_last());
        assert(crate::text::is_digit(s[s.len() - 1]));
    }
}

/// Ten to the power `n`, for `n` up to 6.
fn small_pow10(n: usize) -> (r: u64)
    requires
        n <= 6,
    ensures
        r == pow10(n as nat),
{
    let mut r: u64 = 1;
    let mut i: usize = 0;
    while i < n
        invariant
            i <= n <= 6,
            r == pow10(i as nat),
            r <= 1_000_000,
            i < 6 ==> r <= 100_000,
        decreases n - i,
    {
        proof {
            lemma_pow10_split(6);
            lemma_pow10_split(5);
            if i + 1 < 6 {
                lemma_pow10_monotone((i + 1) as nat, 5);
            } else {
                lemma_pow10_monotone((i + 1) as nat, 6);
            }
        }
        r = r * 10;
        i = i + 1;
    }
    r
}

proof fn lemma_pow10_monotone(a: nat, b: nat)
    requires
        a <= b,
    ensures
        pow10(a) <= pow10(b),
        pow10(a) >= 1,
    decreases b,
{
    if a < b {
        lemma_pow10_monotone(a, (b - 1) as nat);
    } else if a > 0 {
        lemma_pow10_monotone((a - 1) as nat, (a - 1) as nat);
    }
}

/// Reads the digits after a decimal point, `v[from..to]`, as millionths.
fn parse_fraction(v: &Vec<char>, from: usize, to: usize) -> (r: Option<u64>)
    requires
        from <= to <= v.len(),
    ensures
        ({
            let text = v@.subrange(from as int, to as int);
            match r {
                Some(n) => all_digits(text) && n == fraction_micros(text) && n < 1_000_000,
                None => !all_digits(text),
            }
        }),
{
    let ghost text = v@.subrange(from as int, to as int);
    proof {
        lemma_pow10_split(6);
    }
    if from == to {
        assert(digits_value(text) == 0);
        return Some(0);
    }
    if !crate::text::digits_only(v, from, to) {
        return None;
    }
    let kept: usize = if to - from > 6 {
        6
    } else {
        to - from
    };
    let ghost kept_text = v@.subrange(from as int, from + kept);
    assert(kept_text =~= text.take(kept as int));
    assert(all_digits(kept_text)) by {
        assert forall|i: int| 0 <= i < kept_text.len() implies crate::text::is_digit(
            #[trigger] kept_text[i],
        ) by {
            assert(kept_text[i] == text[i]);
        }
    }
    proof {
        lemma_digits_value_bound(kept_text);
        lemma_pow10_monotone(kept as nat, 6);
        lemma_pow10_split(kept as nat);
    }
    match parse_digits(v, from, from + kept) {
        Some(n) => {
            let scale = small_pow10(6 - kept);
            assert(n * scale < 1_000_000) by (nonlinear_arith)
                requires
                    n < pow10(kept as nat),
                    scale == pow10((6 - kept) as nat),
                    pow10(kept as nat) * pow10((6 - kept) as nat) == 1_000_000,
            ;
            proof {
                if to - from < 6 {
                    assert(text.take(kept as int) =~= text);
                }
            }
            Some(n * scale)
        },
        None => {
            assert(false);
            None
        },
    }
}

/// Ten to the power of a sum is the product of the powers.
pub proof fn lemma_pow10_adds(a: nat, b: nat)
    ensures
        pow10(a + b) == pow10(a) * pow10(b),
    decreases b,
{
    if b == 0 {
        assert(pow10(a) * pow10(0) == pow10(a)) by (nonlinear_arith)
            requires
                pow10(0) == 1,
        ;
    } else {
        lemma_pow10_adds(a, (b - 1) as nat);
        let x = pow10(a);
        let y = pow10((b - 1) as nat);
        assert(pow10(a + b) == 10 * pow10((a + b - 1) as nat));
        assert(10 * (x * y) == x * (10 * y)) by (nonlinear_arith);
    }
}

/// The number that two runs of digits write one after the other.
pub proof fn lemma_digits_value_of_two_runs(a: Seq<char>, b: Seq<char>)
    ensures
        digits_value(a + b) == digits_value(a) * pow10(b.len()) + digits_value(b),
    decreases b.len(),
{
    if b.len() == 0 {
        assert(a + b =~= a);
        assert(digits_value(a) * pow10(0) == digits_value(a)) by (nonlinear_arith)
            requires
                pow10(0) == 1,
        ;
    } else {
        let head = b.drop_last();
        lemma_digits_value_of_two_runs(a, head);
        assert((a + b).drop_last() =~= a + head);
        assert((a + b).last() == b.last());
        let x = digits_value(a);
        let p = pow10(head.len());
        let d = (b.last() as u32 - 48) as nat;
        assert(pow10(b.len()) == 10 * p);
        assert((x * p + digits_value(head)) * 10 + d == x * (10 * p) + (digits_value(head) * 10
            + d)) by (nonlinear_arith);
    }
}

/// Plain writing is writing with the exponent zero: the millionths of a plain
/// number are its digits shifted by the six places of an amount, less the
/// decimal places that the number has.
pub proof fn lemma_plain_number_is_shifted_digits(u: Seq<char>)
    ensures
        plain_micros(u) == shifted_value(
            split(u, '.')[0] + fraction_digits(u),
            6 - fraction_digits(u).len(),
        ),
{
    let whole = split(u, '.')[0];
    let frac = fraction_digits(u);
    let x = digits_value(whole);
    lemma_pow10_split(6);
    if frac.len() <= 6 {
        let k = (6 - frac.len()) as nat;
        lemma_digits_value_of_two_runs(whole, frac);
        lemma_pow10_adds(frac.len(), k);
        let p = pow10(frac.len());
        let q = pow10(k);
        let y = digits_value(frac);
        assert(p * q == 1_000_000);
        assert((x * p + y) * q == x * (p * q) + y * q) by (nonlinear_arith);
        if frac.len() == 6 {
            assert(frac.take(6) =~= frac);
            assert(y * q == y) by (nonlinear_arith)
                requires
                    q == 1,
            ;
        }
    } else {
        let kept = frac.take(6);
        lemma_digits_value_of_two_runs(whole, kept);
        assert((whole + frac).take(whole.len() as int + 6) =~= whole + kept);
    }
}

/// The bounds of the whole digits and of the decimal places of the plain
/// number `v[from..to]`, if it is one.
fn plain_number_in(v: &Vec<char>, from: usize, to: usize) -> (r: Option<(Span, Span)>)
    requires
        from <= to <= v.len(),
    ensures
        ({
            let u = v@.subrange(from as int, to as int);
            match r {
                Some((whole, frac)) => {
                    &&& is_plain_number(u)
                    &&& whole.wf(v.len() as int)
                    &&& frac.wf(v.len() as int)
                    &&& whole.of(v@) == split(u, '.')[0]
                    &&& frac.of(v@) == fraction_digits(u)
                },
                None => !is_plain_number(u),
            }
        }),
{
    let ghost u = v@.subrange(from as int, to as int);
    let parts = split_spans(v, from, to, '.');
    let ghost texts = split(u, '.');
    proof {
        crate::text::lemma_split_nonempty(u, '.');
        assert(crate::text::spans_of(parts@, v@).len() == parts.len());
    }
    if parts.len() > 2 {
        return None;
    }
    let whole: Span = parts[0];
    assert(whole.of(v@) == texts[0] && whole.wf(v.len() as int)) by {
        assert(crate::text::spans_of(parts@, v@)[0] == parts@[0].of(v@));
    }
    let has_frac = parts.len() == 2;
    let frac: Span = if has_frac {
        parts[1]
    } else {
        Span { start: to, end: to }
    };
    proof {
        if has_frac {
            assert(crate::text::spans_of(parts@, v@)[1] == parts@[1].of(v@));
            assert(frac.of(v@) == texts[1] && parts@[1].wf(v.len() as int));
        } else {
            assert(frac.of(v@) =~= Seq::<char>::empty());
        }
    }
    if whole.end == whole.start && frac.end == frac.start {
        return None;
    }
    if !crate::text::digits_only(v, whole.start, whole.end) {
        return None;
    }
    if !crate::text::digits_only(v, frac.start, frac.end) {
        return None;
    }
    Some((whole, frac))
}

/// Reads the plain number `v[from..to]` as millionths.
fn parse_plain_in(v: &Vec<char>, from: usize, to: usize) -> (r: Option<u64>)
    requires
        from <= to <= v.len(),
    ensures
        ({
            let u = v@.subrange(from as int, to as int);
            match r {
                Some(n) => is_plain_number(u) && n == plain_micros(u) && n <= i64::MAX,
                None => !is_plain_number(u) || plain_micros(u) > i64::MAX,
            }
        }),
{
    let ghost u = v@.subrange(from as int, to as int);
    let (whole, frac) = match plain_number_in(v, from, to) {
        Some(spans) => spans,
        None => {
            return None;
        },
    };
    let whole_value: u64 = if whole.start == whole.end {
        assert(digits_value(whole.of(v@)) == 0);
        0
    } else {
        match parse_digits(v, whole.start, whole.end) {
            Some(n) => n,
            None => {
                assert(digits_value(whole.of(v@)) * SCALE as nat > i64::MAX) by (nonlinear_arith)
                    requires
                        digits_value(whole.of(v@)) > u64::MAX,
                        SCALE == 1_000_000,
                ;
                return None;
            },
        }
    };
    let frac_value: u64 = match parse_fraction(v, frac.start, frac.end) {
        Some(n) => n,
        None => {
            return None;
        },
    };
    assert(frac_value == fraction_micros(fraction_digits(u)));
    if whole_value > 9_223_372_036_854 {
        return None;
    }
    let magnitude: u64 = whole_value * 1_000_000 + frac_value;
    if magnitude > 9_223_372_036_854_775_807 {
        return None;
    }
    Some(magnitude)
}

/// Where the first `e` or `E` stands in `v[from..to]`; `to` if there is none.
fn find_exponent_mark(v: &Vec<char>, from: usize, to: usize) -> (m: usize)
    requires
        from <= to <= v.len(),
    ensures
        from <= m <= to,
        m - from == exponent_mark(v@.subrange(from as int, to as int)),
{
    let ghost u = v@.subrange(from as int, to as int);
    let mut i: usize = from;
    assert(u.skip(0) =~= u);
    while i < to && !(v[i] == 'e' || v[i] == 'E')
        invariant
            from <= i <= to <= v.len(),
            u == v@.subrange(from as int, to as int),
            exponent_mark(u) == (i - from) + exponent_mark(u.skip(i - from)),
        decreases to - i,
    {
        let ghost rest = u.skip(i - from);
        assert(rest[0] == v@[i as int]);
        assert(rest.drop_first() =~= u.skip(i + 1 - from));
        i = i + 1;
    }
    proof {
        let rest = u.skip(i - from);
        if i < to {
            assert(rest[0] == v@[i as int]);
        } else {
            assert(rest.len() == 0);
        }
    }
    i
}

/// Reads the exponent `v[from..to]`.
fn parse_exponent_in(v: &Vec<char>, from: usize, to: usize) -> (r: Option<i128>)
    requires
        from <= to <= v.len(),
    ensures
        ({
            let t = v@.subrange(from as int, to as int);
            match r {
                Some(e) => is_exponent_text(t) && e == exponent_value(t),
                None => !is_exponent_text(t),
            }
        }),
{
    let ghost t = v@.subrange(from as int, to as int);
    let negative = from < to && v[from] == '-';
    let start: usize = if from < to && (v[from] == '-' || v[from] == '+') {
        from + 1
    } else {
        from
    };
    assert(v@.subrange(start as int, to as int) =~= unsigned_part(t));
    match parse_digits(v, start, to) {
        Some(n) => Some(
            if negative {
                -(n as i128)
            } else {
                n as i128
            },
        ),
        None => None,
    }
}

/// The powers of ten from the sixth to the nineteenth, the first that no
/// amount reaches.
proof fn lemma_pow10_to_19()
    ensures
        pow10(18) == 1_000_000_000_000_000_000,
        pow10(19) == 10_000_000_000_000_000_000,
{
    lemma_pow10_split(6);
    assert(pow10(7) == 10_000_000);
    assert(pow10(8) == 100_000_000);
    assert(pow10(9) == 1_000_000_000);
    assert(pow10(10) == 10_000_000_000);
    assert(pow10(11) == 100_000_000_000);
    assert(pow10(12) == 1_000_000_000_000);
    assert(pow10(13) == 10_000_000_000_000);
    assert(pow10(14) == 100_000_000_000_000);
    assert(pow10(15) == 1_000_000_000_000_000);
    assert(pow10(16) == 10_000_000_000_000_000);
    assert(pow10(17) == 100_000_000_000_000_000);
    assert(pow10(18) == 1_000_000_000_000_000_000);
    assert(pow10(19) == 10_000_000_000_000_000_000);
}

/// The number that the digits write, shifted by `k` decimal places, if it is
/// an amount's magnitude.
fn shift_digits(d: &Vec<char>, k: i128) -> (r: Option<u64>)
    requires
        all_digits(d@),
        d.len() > 0,
        -0x1_0000_0000_0000_0000_0000 < k < 0x1_0000_0000_0000_0000_0000,
    ensures
        match r {
            Some(n) => n == shifted_value(d@, k as int) && n <= i64::MAX,
            None => shifted_value(d@, k as int) > i64::MAX,
        },
{
    let len: usize = d.len();
    if k < 0 {
        let drop: i128 = -k;
        if drop >= len as i128 {
            return Some(0);
        }
        let keep: usize = (len as i128 - drop) as usize;
        let ghost kept = d@.subrange(0, keep as int);
        assert(kept =~= d@.take(d@.len() + k));
        assert(all_digits(kept)) by {
            assert forall|i: int| 0 <= i < kept.len() implies crate::text::is_digit(
                #[trigger] kept[i],
            ) by {
                assert(kept[i] == d@[i]);
            }
        }
        match parse_digits(d, 0, keep) {
            Some(n) => if n > 9_223_372_036_854_775_807 {
                None
            } else {
                Some(n)
            },
            None => None,
        }
    } else {
        let ghost whole = d@.subrange(0, len as int);
        assert(whole =~= d@);
        let ghost p = pow10(k as nat);
        proof {
            lemma_pow10_monotone(0, k as nat);
        }
        let n: u64 = match parse_digits(d, 0, len) {
            Some(n) => n,
            None => {
                assert(digits_value(d@) * p > i64::MAX) by (nonlinear_arith)
                    requires
                        digits_value(d@) > u64::MAX,
                        p >= 1,
                ;
                return None;
            },
        };
        if n == 0 {
            assert(digits_value(d@) * p == 0) by (nonlinear_arith)
                requires
                    digits_value(d@) == 0,
            ;
            return Some(0);
        }
        if n > 9_223_372_036_854_775_807 {
            assert(digits_value(d@) * p > i64::MAX) by (nonlinear_arith)
                requires
                    digits_value(d@) > i64::MAX,
                    p >= 1,
            ;
            return None;
        }
        if k > 18 {
            proof {
                lemma_pow10_to_19();
                lemma_pow10_monotone(19, k as nat);
            }
            assert(digits_value(d@) * p > i64::MAX) by (nonlinear_arith)
                requires
                    digits_value(d@) >= 1,
                    p >= 10_000_000_000_000_000_000,
            ;
            return None;
        }
        let mut acc: u64 = n;
        let mut i: i128 = 0;
        assert(n * pow10(0) == n) by (nonlinear_arith)
            requires
                pow10(0) == 1,
        ;
        while i < k
            invariant
                0 <= i <= k <= 18,
                n == digits_value(d@),
                p == pow10(k as nat),
                acc == n * pow10(i as nat),
                acc <= 9_223_372_036_854_775_807,
            decreases k - i,
        {
            let ghost here = pow10(i as nat);
            let ghost next = pow10((i + 1) as nat);
            assert(next == 10 * here);
            assert(n * next == acc * 10) by (nonlinear_arith)
                requires
                    next == 10 * here,
                    acc == n * here,
            ;
            if acc > 922_337_203_685_477_580 {
                proof {
                    lemma_pow10_monotone((i + 1) as nat, k as nat);
                }
                assert(n * p > i64::MAX) by (nonlinear_arith)
                    requires
                        n * next > i64::MAX,
                        p >= next,
                        n >= 0,
                ;
                return None;
            }
            acc = acc * 10;
            i = i + 1;
        }
        Some(acc)
    }
}

/// Reads `v[from..to]` as a decimal number.
pub fn parse_decimal_in(v: &Vec<char>, from: usize, to: usize) -> (r: Option<Decimal>)
    requires
        from <= to <= v.len(),
    ensures
        micros_of(r) == read_decimal(v@.subrange(from as int, to as int)),
{
    let ghost s = v@.subrange(from as int, to as int);
    let negative = from < to && v[from] == '-';
    let start: usize = if from < to && (v[from] == '-' || v[from] == '+') {
        from + 1
    } else {
        from
    };
    let ghost u = unsigned_part(s);
    assert(v@.subrange(start as int, to as int) =~= u);
    let mark = find_exponent_mark(v, start, to);
    let ghost plain = u.take(mark - start);
    assert(v@.subrange(start as int, mark as int) =~= plain);
    let magnitude: u64 = if mark == to {
        match parse_plain_in(v, start, to) {
            Some(n) => n,
            None => {
                return None;
            },
        }
    } else {
        assert(v@.subrange(mark + 1, to as int) =~= u.skip(mark - start + 1));
        let (whole, frac) = match plain_number_in(v, start, mark) {
            Some(spans) => spans,
            None => {
                return None;
            },
        };
        let exponent = match parse_exponent_in(v, mark + 1, to) {
            Some(e) => e,
            None => {
                return None;
            },
        };
        let mut digits: Vec<char> = Vec::new();
        crate::text::push_range(&mut digits, v, whole.start, whole.end);
        crate::text::push_range(&mut digits, v, frac.start, frac.end);
        assert(digits@ =~= split(plain, '.')[0] + fraction_digits(plain));
        assert(all_digits(digits@)) by {
            let a = split(plain, '.')[0];
            let b = fraction_digits(plain);
            assert forall|i: int| 0 <= i < digits@.len() implies crate::text::is_digit(
                #[trigger] digits@[i],
            ) by {
                if i < a.len() {
                    assert(digits@[i] == a[i]);
                } else {
                    assert(digits@[i] == b[i - a.len()]);
                }
            }
        }
        let shift: i128 = 6 + exponent - (frac.end - frac.start) as i128;
        match shift_digits(&digits, shift) {
            Some(n) => n,
            None => {
                return None;
            },
        }
    };
    assert(is_decimal_text(s));
    assert(magnitude == decimal_text_magnitude(s));
    let micros: i64 = if negative {
        -(magnitude as i64)
    } else {
        magnitude as i64
    };
    Some(Decimal { micros })
}

/// The powers of ten up to the sixth.
pub proof fn lemma_pow10_split(k: nat)
    requires
        k <= 6,
    ensures
        pow10(k) * pow10((6 - k) as nat) == 1_000_000,
        pow10(0) == 1,
        pow10(1) == 10,
        pow10(2) == 100,
        pow10(5) == 100_000,
        pow10(6) == 1_000_000,
{
    assert(pow10(0) == 1);
    assert(pow10(1) == 10);
    assert(pow10(2) == 100);
    assert(pow10(3) == 1_000);
    assert(pow10(4) == 10_000);
    assert(pow10(5) == 100_000);
    assert(pow10(6) == 1_000_000);
    if k == 0 {
    } else if k == 1 {
    } else if k == 2 {
    } else if k == 3 {
    } else if k == 4 {
    } else if k == 5 {
    } else {
    }
}

impl Decimal {
    /// Reads a decimal number such as `260.595`, `-1.01365` or `2.5e-3`: an
    /// optional sign, digits with at most one decimal point, and optionally
    /// an exponent after `e` or `E`. What is below a millionth is dropped.
    /// `None` for any other text, among them the names of infinity and of
    /// not-a-number, which no amount stands for, and for a number whose
    /// magnitude does not fit.
    pub fn parse(s: &str) -> (r: Option<Decimal>)
        ensures
            micros_of(r) == read_decimal(s@),
    {
        let v = to_chars(s);
        assert(v@.subrange(0, v.len() as int) =~= v@);
        parse_decimal_in(&v, 0, v.len())
    }
}

/// `s` without the zeros at its end.
pub open spec fn without_trailing_zeros(s: Seq<char>) -> Seq<char>
    decreases s.len(),
{
    if s.len() > 0 && s.last() == '0' {
        without_trailing_zeros(s.drop_last())
    } else {
        s
    }
}

/// The six decimal places of `frac` millionths, zeros at the end left out.
pub open spec fn fraction_text(frac: nat) -> Seq<char> {
    without_trailing_zeros(crate::text::zero_padded(digits_of(frac), 6))
}

/// The amount in plain decimal writing: a minus sign if it is negative, the
/// whole part, and, unless the amount is whole, a point and the decimal
/// places that are not trailing zeros. 120 units read `120`, 60.5 `60.5`.
pub open spec fn decimal_text(micros: int) -> Seq<char> {
    let magnitude = if micros < 0 {
        -micros
    } else {
        micros
    };
    let whole = digits_of((magnitude / SCALE as int) as nat);
    let frac = (magnitude % SCALE as int) as nat;
    (if micros < 0 {
        seq!['-']
    } else {
        Seq::<char>::empty()
    }) + whole + (if frac == 0 {
        Seq::<char>::empty()
    } else {
        seq!['.'] + fraction_text(frac)
    })
}

impl Decimal {
    /// Appends the amount, in plain decimal writing, to `out`.
    pub fn push_text(&self, out: &mut Vec<char>)
        ensures
            final(out)@ == old(out)@ + decimal_text(self@),
    {
        let ghost before = out@;
        let wide: i128 = self.micros as i128;
        let magnitude: u64 = if wide < 0 {
            (-wide) as u64
        } else {
            wide as u64
        };
        if self.micros < 0 {
            out.push('-');
        }
        let ghost signed = out@;
        push_number(out, magnitude / 1_000_000);
        let ghost with_whole = out@;
        let frac: u64 = magnitude % 1_000_000;
        if frac != 0 {
            out.push('.');
            let mut places: Vec<char> = Vec::new();
            crate::text::push_padded(&mut places, frac, 6);
            let mut end: usize = places.len();
            proof {
                assert(places@ =~= crate::text::zero_padded(digits_of(frac as nat), 6));
                assert(places@.take(end as int) =~= places@);
            }
            while end > 0 && places[end - 1] == '0'
                invariant
                    end <= places.len(),
                    without_trailing_zeros(places@) == without_trailing_zeros(
                        places@.take(end as int),
                    ),
                decreases end,
            {
                assert(places@.take(end as int).drop_last() =~= places@.take(end - 1));
                end = end - 1;
            }
            crate::text::push_range(out, &places, 0, end);
            assert(places@.subrange(0, end as int) =~= places@.take(end as int));
        }
        assert(out@ =~= before + decimal_text(self@));
    }

    /// The amount in plain decimal writing.
    pub fn to_text(&self) -> (r: String)
        ensures
            r@ == decimal_text(self@),
    {
        let mut out: Vec<char> = Vec::new();
        self.push_text(&mut out);
        assert(Seq::<char>::empty() + decimal_text(self@) =~= decimal_text(self@));
        string_from(&out)
    }
}

} // verus!
