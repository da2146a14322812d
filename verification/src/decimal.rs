//! Decimal numerals and the fixed-point numbers they are read into.

use crate::ascii::{DIGIT_0, DIGIT_9, LOWER_E, MINUS, PLUS, POINT, UPPER_E};
use vstd::arithmetic::div_mod::{lemma_basic_div, lemma_div_denominator};
use vstd::prelude::*;
use vstd::utf8::encode_utf8;

verus! {

/// Decimal places that a [`Decimal`] keeps.
pub const PLACES: u32 = 18;

/// The largest [`Decimal`] is ten to the power [`PLACES`]; this is that
/// number in units of ten to the minus [`PLACES`]. The smallest [`Decimal`]
/// is its negative.
pub const LIMIT: i128 = 1_000_000_000_000_000_000_000_000_000_000_000_000;

pub open spec fn is_digit(b: u8) -> bool {
    DIGIT_0 <= b <= DIGIT_9
}

/// The number that a digit byte stands for.
pub open spec fn digit(b: u8) -> nat {
    if is_digit(b) {
        (b - DIGIT_0) as nat
    } else {
        0
    }
}

/// The index of the first byte at or after `from` that is not a digit.
pub open spec fn digits_end(s: Seq<u8>, from: int) -> int
    decreases s.len() - from,
{
    if 0 <= from < s.len() && is_digit(s[from]) {
        digits_end(s, from + 1)
    } else {
        from
    }
}

/// The number written by `ds`, most significant digit first, after the
/// digits that already gave `acc`.
pub open spec fn digits_onto(acc: nat, ds: Seq<u8>) -> nat
    decreases ds.len(),
{
    if ds.len() == 0 {
        acc
    } else {
        10 * digits_onto(acc, ds.drop_last()) + digit(ds.last())
    }
}

/// The number written by the digits `ds`, most significant first.
pub open spec fn digits_value(ds: Seq<u8>) -> nat {
    digits_onto(0, ds)
}

/// Ten to the power `n`.
pub open spec fn pow10(n: nat) -> nat
    decreases n,
{
    if n == 0 {
        1
    } else {
        10 * pow10((n - 1) as nat)
    }
}

/// `n`, or [`LIMIT`] where `n` has reached it.
pub open spec fn capped(n: nat) -> nat {
    if n >= LIMIT {
        LIMIT as nat
    } else {
        n
    }
}

/// `m` times ten to the power `shift`, rounded toward zero.
#[verifier::opaque]
pub open spec fn shifted(m: nat, shift: int) -> nat {
    if shift >= 0 {
        m * pow10(shift as nat)
    } else {
        m / pow10((-shift) as nat)
    }
}

/// What a decimal numeral says: its sign, the digits of its integer and
/// fraction parts taken together, and the power of ten that scales the
/// number they write.
pub struct Numeral {
    pub negative: bool,
    pub digits: Seq<u8>,
    pub exponent: int,
}

impl Numeral {
    /// The numeral's absolute value in units of ten to the minus
    /// [`PLACES`]: what lies beyond the last place is dropped, and what
    /// lies beyond [`LIMIT`] counts as [`LIMIT`].
    pub open spec fn magnitude(self) -> nat {
        capped(shifted(digits_value(self.digits), self.exponent + PLACES))
    }

    /// The numeral's value in units of ten to the minus [`PLACES`].
    pub open spec fn units(self) -> int {
        if self.negative {
            -(self.magnitude() as int)
        } else {
            self.magnitude() as int
        }
    }
}

pub open spec fn is_sign(b: u8) -> bool {
    b == PLUS || b == MINUS
}

/// The exponent part of a numeral, which starts at `at` and runs to the end
/// of `s`: nothing, or `e` or `E`, an optional sign and at least one digit.
/// The result is whether the exponent is negative, and its absolute value.
pub open spec fn exponent_part(s: Seq<u8>, at: int) -> Option<(bool, nat)> {
    if at == s.len() {
        Some((false, 0))
    } else if s[at] == LOWER_E || s[at] == UPPER_E {
        let signed = at + 1 < s.len() && is_sign(s[at + 1]);
        let e = if signed { at + 2 } else { at + 1 };
        let f = digits_end(s, e);
        if e < f && f == s.len() {
            Some((signed && s[at + 1] == MINUS, digits_value(s.subrange(e, f))))
        } else {
            None
        }
    } else {
        None
    }
}

/// Reads `s` as a decimal numeral: an optional sign; digits, with at most
/// one point among them, before them or after them; and an optional
/// exponent part. `None` where `s` is not of that form.
pub open spec fn numeral(s: Seq<u8>) -> Option<Numeral> {
    let signed = s.len() > 0 && is_sign(s[0]);
    let a: int = if signed { 1 } else { 0 };
    let b = digits_end(s, a);
    let pointed = b < s.len() && s[b] == POINT;
    let c = if pointed { b + 1 } else { b };
    let d = digits_end(s, c);
    let digits = s.subrange(a, b) + s.subrange(c, d);
    match exponent_part(s, d) {
        Some((exp_negative, power)) if digits.len() > 0 => Some(
            Numeral {
                negative: signed && s[0] == MINUS,
                digits,
                exponent: (if exp_negative { -(power as int) } else { power as int }) + c - d,
            },
        ),
        _ => None,
    }
}

/// The number that `s` writes, in units of ten to the minus [`PLACES`];
/// `None` where `s` is no numeral.
pub open spec fn decimal_of(s: Seq<u8>) -> Option<int> {
    match numeral(s) {
        Some(n) => Some(n.units()),
        None => None,
    }
}

/// `n`, held between `-LIMIT` and `LIMIT`.
pub open spec fn clamped(n: int) -> int {
    if n > LIMIT {
        LIMIT as int
    } else if n < -LIMIT {
        -LIMIT
    } else {
        n
    }
}

/// A number with [`PLACES`] decimal places, between `-LIMIT` and `LIMIT`
/// units of the last place.
#[derive(Clone, Copy, Debug, PartialEq, Eq)]
pub struct Decimal {
    raw: i128,
}

impl View for Decimal {
    type V = int;

    /// The number in units of ten to the minus [`PLACES`].
    closed spec fn view(&self) -> int {
        self.raw as int
    }
}

impl Decimal {
    #[verifier::type_invariant]
    spec fn within_limit(self) -> bool {
        -LIMIT <= self.raw <= LIMIT
    }

    /// The number in units of ten to the minus [`PLACES`].
    pub fn raw(&self) -> (r: i128)
        ensures
            r == self@,
            -LIMIT <= r <= LIMIT,
    {
        proof {
            use_type_invariant(self);
        }
        self.raw
    }

    /// Reads a decimal numeral from text; see [`Decimal::from_bytes`].
    pub fn parse(text: &str) -> (r: Option<Decimal>)
        ensures
            match r {
                Some(x) => decimal_of(encode_utf8(text@)) == Some(x@),
                None => decimal_of(encode_utf8(text@)) is None,
            },
    {
        Decimal::from_bytes(text.as_bytes())
    }

    /// Reads a decimal numeral. Digits beyond the last place are dropped;
    /// a number beyond the limit is read as the limit.
    pub fn from_bytes(s: &[u8]) -> (r: Option<Decimal>)
        ensures
            match r {
                Some(x) => decimal_of(s@) == Some(x@),
                None => decimal_of(s@) is None,
            },
    {
        let len = s.len();
        let signed = len > 0 && (s[0] == PLUS || s[0] == MINUS);
        let negative = signed && s[0] == MINUS;
        let a: usize = if signed { 1 } else { 0 };
        let b = scan_digits(s, a);
        let pointed = b < len && s[b] == POINT;
        let c: usize = if pointed { b + 1 } else { b };
        let d = scan_digits(s, c);
        if b - a == 0 && d - c == 0 {
            return None;
        }
        let (exp_negative, exp, Ghost(power)) = match scan_exponent(s, d) {
            Some(found) => found,
            None => { return None; },
        };
        let magnitude = scale_digits(s, a, b, c, d, exp_negative, exp, Ghost(power));
        let raw: i128 = if negative { -(magnitude as i128) } else { magnitude as i128 };
        Some(Decimal { raw })
    }

    /// The difference `self - other`, held within the limit.
    pub fn saturating_sub(self, other: Decimal) -> (r: Decimal)
        ensures
            r@ == clamped(self@ - other@),
    {
        let raw = self.raw() - other.raw();
        if raw > LIMIT {
            Decimal { raw: LIMIT }
        } else if raw < -LIMIT {
            Decimal { raw: -LIMIT }
        } else {
            Decimal { raw }
        }
    }
}

/// Finds the end of a run of digits.
fn scan_digits(s: &[u8], from: usize) -> (to: usize)
    requires
        from <= s.len(),
    ensures
        to == digits_end(s@, from as int),
        from <= to <= s.len(),
        forall|i: int| from <= i < to ==> is_digit(#[trigger] s[i]),
{
    let mut i: usize = from;
    while i < s.len() && DIGIT_0 <= s[i] && s[i] <= DIGIT_9
        invariant
            from <= i <= s.len(),
            digits_end(s@, from as int) == digits_end(s@, i as int),
            forall|j: int| from <= j < i ==> is_digit(#[trigger] s[j]),
        decreases s.len() - i,
    {
        i += 1;
    }
    i
}

/// Reads the digits `s[from..to]` onto `acc`, stopping at [`LIMIT`].
fn accumulate(s: &[u8], from: usize, to: usize, acc: u128, Ghost(before): Ghost<nat>) -> (r: u128)
    requires
        from <= to <= s.len(),
        forall|i: int| from <= i < to ==> is_digit(#[trigger] s[i]),
        acc == capped(before),
    ensures
        r == capped(digits_onto(before, s@.subrange(from as int, to as int))),
{
    let mut r: u128 = acc;
    let mut i: usize = from;
    assert(s@.subrange(from as int, from as int) =~= Seq::<u8>::empty());
    while i < to
        invariant
            from <= i <= to <= s.len(),
            forall|i: int| from <= i < to ==> is_digit(#[trigger] s[i]),
            r == capped(digits_onto(before, s@.subrange(from as int, i as int))),
        decreases to - i,
    {
        proof {
            let ds = s@.subrange(from as int, i as int);
            assert(s@.subrange(from as int, i + 1) =~= ds.push(s[i as int]));
            lemma_onto_push(before, ds, s[i as int]);
        }
        if r < LIMIT as u128 {
            assert(is_digit(s[i as int]));
            let d: u128 = (s[i] - DIGIT_0) as u128;
            r = r * 10 + d;
            if r > LIMIT as u128 {
                r = LIMIT as u128;
            }
        }
        i += 1;
    }
    r
}

/// Reads the exponent part of a numeral; its absolute value comes capped.
fn scan_exponent(s: &[u8], at: usize) -> (r: Option<(bool, u128, Ghost<nat>)>)
    requires
        at <= s.len(),
    ensures
        match r {
            Some((negative, exp, power)) => exponent_part(s@, at as int) == Some((negative, power@))
                && exp == capped(power@),
            None => exponent_part(s@, at as int) is None,
        },
{
    let len = s.len();
    if at == len {
        return Some((false, 0, Ghost(0)));
    }
    if s[at] != LOWER_E && s[at] != UPPER_E {
        return None;
    }
    let signed = at + 1 < len && (s[at + 1] == PLUS || s[at + 1] == MINUS);
    let negative = signed && s[at + 1] == MINUS;
    let e: usize = if signed { at + 2 } else { at + 1 };
    let f = scan_digits(s, e);
    if f == e || f != len {
        return None;
    }
    let exp = accumulate(s, e, f, 0, Ghost(0));
    Some((negative, exp, Ghost(digits_value(s@.subrange(e as int, f as int)))))
}

/// The capped magnitude of the numeral whose integer digits are `s[a..b]`,
/// whose fraction digits are `s[c..d]` and whose exponent has the sign
/// `exp_negative` and the capped absolute value `exp`.
fn scale_digits(
    s: &[u8],
    a: usize,
    b: usize,
    c: usize,
    d: usize,
    exp_negative: bool,
    exp: u128,
    Ghost(power): Ghost<nat>,
) -> (r: u128)
    requires
        a <= b <= c <= d <= s.len(),
        forall|i: int| a <= i < b ==> is_digit(#[trigger] s[i]),
        forall|i: int| c <= i < d ==> is_digit(#[trigger] s[i]),
        exp == capped(power),
    ensures
        r == capped(
            shifted(
                digits_value(s@.subrange(a as int, b as int) + s@.subrange(c as int, d as int)),
                (if exp_negative { -(power as int) } else { power as int }) + c - d + PLACES,
            ),
        ),
{
    let ghost whole = s@.subrange(a as int, b as int);
    let ghost fraction = s@.subrange(c as int, d as int);
    let ghost digits = whole + fraction;
    let ghost value = digits_value(digits);
    let ghost exact: int = (if exp_negative { -(power as int) } else { power as int }) + c - d + PLACES;
    let signed_exp: i128 = if exp_negative { -(exp as i128) } else { exp as i128 };
    let shift: i128 = signed_exp - (d - c) as i128 + PLACES as i128;
    proof {
        reveal(shifted);
        lemma_onto_append(0, whole, fraction);
        // a capped exponent lies too far out for the digits to bring the shift back
        assert(power < LIMIT ==> shift == exact);
        assert(power >= LIMIT && !exp_negative ==> exact >= shift >= 2 * PLACES);
        assert(power >= LIMIT && exp_negative ==> exact <= shift < -(digits.len() as int));
    }
    if shift >= 0 {
        let m1 = accumulate(s, a, b, 0, Ghost(0));
        let m = accumulate(s, c, d, m1, Ghost(digits_value(whole)));
        assert(m == capped(value));
        if m == 0 {
            assert(shifted(value, exact) == 0) by (nonlinear_arith)
                requires
                    value == 0,
                    exact >= 0,
                    shifted(value, exact) == value * pow10(exact as nat),
            ;
            return 0;
        }
        let mut acc: u128 = m;
        let mut j: i128 = 0;
        proof {
            assert(pow10(0) == 1);
            assert(value * pow10(0) == value) by (nonlinear_arith)
                requires
                    pow10(0) == 1,
            ;
        }
        while j < shift && acc < LIMIT as u128
            invariant
                0 <= j <= shift,
                value >= 1,
                acc == capped(value * pow10(j as nat)),
            decreases shift - j,
        {
            proof {
                assert(pow10((j + 1) as nat) == 10 * pow10(j as nat));
                assert(value * pow10((j + 1) as nat) == 10 * (value * pow10(j as nat)))
                    by (nonlinear_arith)
                    requires
                        pow10((j + 1) as nat) == 10 * pow10(j as nat),
                ;
            }
            acc = acc * 10;
            if acc > LIMIT as u128 {
                acc = LIMIT as u128;
            }
            j += 1;
        }
        proof {
            lemma_pow10_limit();
            lemma_pow10_positive(j as nat);
            if acc >= LIMIT {
                lemma_pow10_monotone(j as nat, exact as nat);
                assert(value * pow10(exact as nat) >= value * pow10(j as nat)) by (nonlinear_arith)
                    requires
                        pow10(exact as nat) >= pow10(j as nat),
                        value >= 1,
                ;
            } else {
                if power >= LIMIT {
                    lemma_pow10_monotone(2 * PLACES as nat, j as nat);
                    assert(value * pow10(j as nat) >= pow10(j as nat)) by (nonlinear_arith)
                        requires
                            value >= 1,
                            pow10(j as nat) >= 1,
                    ;
                }
                assert(j == exact);
            }
        }
        acc
    } else {
        let dropped: i128 = -shift;
        let count: i128 = (b - a) as i128 + (d - c) as i128;
        proof {
            assert(forall|i: int| 0 <= i < digits.len() ==> is_digit(#[trigger] digits[i]));
            lemma_digits_below(digits);
        }
        if dropped >= count {
            proof {
                lemma_pow10_monotone(digits.len(), (-exact) as nat);
                lemma_basic_div(value as int, pow10((-exact) as nat) as int);
            }
            0
        } else {
            let kept: usize = (count - dropped) as usize;
            proof {
                assert(exact == shift);
                lemma_truncate(digits, dropped as nat);
            }
            if kept <= b - a {
                assert(digits.take(kept as int) =~= s@.subrange(a as int, a + kept));
                accumulate(s, a, a + kept, 0, Ghost(0))
            } else {
                let m1 = accumulate(s, a, b, 0, Ghost(0));
                let rest: usize = kept - (b - a);
                proof {
                    let part = s@.subrange(c as int, c + rest);
                    assert(digits.take(kept as int) =~= whole + part);
                    lemma_onto_append(0, whole, part);
                }
                accumulate(s, c, c + rest, m1, Ghost(digits_value(whole)))
            }
        }
    }
}

proof fn lemma_onto_push(acc: nat, ds: Seq<u8>, b: u8)
    ensures
        digits_onto(acc, ds.push(b)) == 10 * digits_onto(acc, ds) + digit(b),
{
    assert(ds.push(b).drop_last() =~= ds);
}

proof fn lemma_onto_append(acc: nat, front: Seq<u8>, back: Seq<u8>)
    ensures
        digits_onto(acc, front + back) == digits_onto(digits_onto(acc, front), back),
    decreases back.len(),
{
    if back.len() == 0 {
        assert(front + back =~= front);
    } else {
        assert((front + back).drop_last() =~= front + back.drop_last());
        lemma_onto_append(acc, front, back.drop_last());
    }
}

proof fn lemma_pow10_positive(n: nat)
    ensures
        pow10(n) >= 1,
    decreases n,
{
    if n > 0 {
        lemma_pow10_positive((n - 1) as nat);
    }
}

proof fn lemma_pow10_monotone(low: nat, high: nat)
    requires
        low <= high,
    ensures
        pow10(low) <= pow10(high),
    decreases high,
{
    if low < high {
        lemma_pow10_monotone(low, (high - 1) as nat);
    }
}

proof fn lemma_pow10_limit()
    ensures
        pow10(2 * PLACES as nat) == LIMIT,
{
    assert(pow10(6) == 1_000_000) by {
        reveal_with_fuel(pow10, 7);
    }
    assert(pow10(12) == 1_000_000 * pow10(6)) by {
        reveal_with_fuel(pow10, 7);
    }
    assert(pow10(18) == 1_000_000 * pow10(12)) by {
        reveal_with_fuel(pow10, 7);
    }
    assert(pow10(24) == 1_000_000 * pow10(18)) by {
        reveal_with_fuel(pow10, 7);
    }
    assert(pow10(30) == 1_000_000 * pow10(24)) by {
        reveal_with_fuel(pow10, 7);
    }
    assert(pow10(36) == 1_000_000 * pow10(30)) by {
        reveal_with_fuel(pow10, 7);
    }
}

proof fn lemma_digits_below(ds: Seq<u8>)
    requires
        forall|i: int| 0 <= i < ds.len() ==> is_digit(#[trigger] ds[i]),
    ensures
        digits_value(ds) < pow10(ds.len()),
    decreases ds.len(),
{
    if ds.len() > 0 {
        lemma_digits_below(ds.drop_last());
    }
}

/// Dropping the last `k` digits divides by ten to the power `k`.
proof fn lemma_truncate(ds: Seq<u8>, k: nat)
    requires
        forall|i: int| 0 <= i < ds.len() ==> is_digit(#[trigger] ds[i]),
        k <= ds.len(),
    ensures
        digits_value(ds) / pow10(k) == digits_value(ds.take(ds.len() - k)),
    decreases k,
{
    if k == 0 {
        assert(ds.take(ds.len() - k) =~= ds);
        assert(pow10(k) == 1);
    } else {
        let front = ds.drop_last();
        let rest = (k - 1) as nat;
        lemma_truncate(front, rest);
        assert(front.take(front.len() - rest) =~= ds.take(ds.len() - k));
        lemma_pow10_positive(rest);
        let v = digits_value(ds) as int;
        let p = pow10(rest) as int;
        assert(v / 10 == digits_value(front));
        assert(pow10(k) == 10 * p);
        lemma_div_denominator(v, 10, p);
        assert((v / 10) / p == v / (10 * p));
    }
}

} // verus!
