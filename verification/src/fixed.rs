//! Decimal fractions: reading them and writing them.
use vstd::prelude::*;
use vstd::slice::slice_subrange;

use crate::big;
use crate::big::Big;
use crate::double;
use crate::double::{Double, Number};
use crate::text;

verus! {

// ───────────────────────── reading ─────────────────────────

pub open spec fn is_sign(s: Seq<char>) -> bool {
    s.len() > 0 && (s[0] == '+' || s[0] == '-')
}

/// `s` without a sign in front.
pub open spec fn unsigned(s: Seq<char>) -> Seq<char> {
    if is_sign(s) {
        s.skip(1)
    } else {
        s
    }
}

pub open spec fn negative(s: Seq<char>) -> bool {
    s.len() > 0 && s[0] == '-'
}

/// Where the exponent begins, or the length where there is none.
pub open spec fn exponent_at(s: Seq<char>) -> int {
    text::find(text::lower(s), 'e')
}

pub open spec fn has_exponent(s: Seq<char>) -> bool {
    exponent_at(s) < s.len()
}

/// The digits of the exponent.
pub open spec fn exponent_digits(s: Seq<char>) -> Seq<char> {
    unsigned(s.skip(exponent_at(s) + 1))
}

pub open spec fn exponent(s: Seq<char>) -> int {
    if !has_exponent(s) {
        0
    } else if negative(s.skip(exponent_at(s) + 1)) {
        -(text::value(exponent_digits(s)) as int)
    } else {
        text::value(exponent_digits(s)) as int
    }
}

pub open spec fn mantissa(s: Seq<char>) -> Seq<char> {
    s.take(exponent_at(s))
}

pub open spec fn whole_digits(s: Seq<char>) -> Seq<char> {
    mantissa(s).take(text::find(mantissa(s), '.'))
}

pub open spec fn fraction_digits(s: Seq<char>) -> Seq<char> {
    let m = mantissa(s);
    let p = text::find(m, '.');
    if p < m.len() {
        m.skip(p + 1)
    } else {
        Seq::empty()
    }
}

/// Whether `s` is an unsigned decimal number: digits with at most one point among
/// or beside them, at least one digit, and perhaps an exponent.
pub open spec fn is_decimal(s: Seq<char>) -> bool {
    &&& text::all_digits(whole_digits(s))
    &&& text::all_digits(fraction_digits(s))
    &&& whole_digits(s).len() + fraction_digits(s).len() > 0
    &&& has_exponent(s) ==> exponent_digits(s).len() > 0 && text::all_digits(exponent_digits(s))
}

/// The double nearest to a number times a power of ten.
pub open spec fn powered(v: nat, e: int) -> Double {
    if e >= 0 {
        double::rounded(v * big::ten(e as nat), 1)
    } else {
        double::rounded(v, big::ten((-e) as nat))
    }
}

/// The double nearest to an unsigned decimal number.
pub open spec fn decimal_double(s: Seq<char>) -> Double {
    powered(
        text::value(whole_digits(s) + fraction_digits(s)),
        exponent(s) - fraction_digits(s).len(),
    )
}

pub open spec fn is_infinity(s: Seq<char>) -> bool {
    text::lower(s) == "inf"@ || text::lower(s) == "infinity"@
}

pub open spec fn is_nan(s: Seq<char>) -> bool {
    text::lower(s) == "nan"@
}

/// Reads a number: an optional sign, then a decimal number, `inf`, `infinity` or
/// `nan` in any case.
pub open spec fn parse_number(s: Seq<char>) -> Option<Number> {
    let body = unsigned(s);
    if is_infinity(body) {
        Some(Number::Signed { negative: negative(s), size: Double::Infinite })
    } else if is_nan(body) {
        Some(Number::Nan)
    } else if is_decimal(body) {
        Some(Number::Signed { negative: negative(s), size: decimal_double(body) })
    } else {
        None
    }
}

pub open spec fn least(a: nat, b: nat) -> nat {
    if a <= b {
        a
    } else {
        b
    }
}

/// Beyond every exponent that matters.
const FAR: u128 = 1_000_000_000_000_000_000_000_000_000_000;

fn digits_only(s: &[char]) -> (r: bool)
    ensures
        r == text::all_digits(s@),
{
    let mut i: usize = 0;
    while i < s.len()
        invariant
            i <= s@.len(),
            forall|j: int| 0 <= j < i ==> text::is_digit(#[trigger] s@[j]),
        decreases s@.len() - i,
    {
        if !('0' <= s[i] && s[i] <= '9') {
            assert(!text::is_digit(s@[i as int]));
            return false;
        }
        i = i + 1;
    }
    true
}

/// The number that the digits stand for, cut to `FAR`.
fn capped_value(s: &[char]) -> (r: u128)
    requires
        text::all_digits(s@),
    ensures
        r == least(text::value(s@), FAR as nat),
{
    let mut acc: u128 = 0;
    let mut i: usize = 0;
    while i < s.len()
        invariant
            i <= s@.len(),
            text::all_digits(s@),
            acc == least(text::value(s@.take(i as int)), FAR as nat),
        decreases s@.len() - i,
    {
        assert(s@.take(i + 1).drop_last() =~= s@.take(i as int));
        assert(text::is_digit(s@[i as int]));
        let next: u128 = acc * 10 + (s[i] as u32 - 48) as u128;
        acc = if next <= FAR {
            next
        } else {
            FAR
        };
        i = i + 1;
    }
    assert(s@.take(i as int) =~= s@);
    acc
}

proof fn lemma_ten_adds(a: nat, b: nat)
    ensures
        big::ten(a + b) == big::ten(a) * big::ten(b),
        big::ten(b) >= 1,
    decreases b,
{
    if b > 0 {
        let c = (b - 1) as nat;
        lemma_ten_adds(a, c);
        let (p, q) = (big::ten(a), big::ten(c));
        assert(10 * (p * q) == p * (10 * q)) by (nonlinear_arith);
    } else {
        assert(big::ten(a) * 1 == big::ten(a)) by (nonlinear_arith);
    }
}

/// Ten is more than eight.
proof fn lemma_ten_over_two(n: nat)
    ensures
        big::ten(n) >= big::two(3 * n),
    decreases n,
{
    if n > 0 {
        lemma_ten_over_two((n - 1) as nat);
        reveal_with_fuel(big::two, 4);
    }
}

/// Digits stand for less than the power of ten that has one digit more.
proof fn lemma_value_bound(s: Seq<char>)
    requires
        text::all_digits(s),
    ensures
        text::value(s) < big::ten(s.len()),
    decreases s.len(),
{
    if s.len() > 0 {
        assert forall|j: int| 0 <= j < s.drop_last().len() implies text::is_digit(
            #[trigger] s.drop_last()[j],
        ) by {
            assert(s.drop_last()[j] == s[j]);
        }
        assert(text::is_digit(s[s.len() - 1]));
        lemma_value_bound(s.drop_last());
    }
}

/// What is too large at every exponent is infinite.
proof fn lemma_infinite(num: nat, den: nat, e: int)
    requires
        double::LEAST <= e <= double::GREATEST,
        num >= (den * double::TOP) * big::two((double::GREATEST - e) as nat),
    ensures
        double::fitted(num, den, e) is Infinite,
    decreases double::GREATEST - e,
{
    let k = (double::GREATEST - e) as nat;
    double::lemma_two_monotone(k, 0);
    let t = big::two(k);
    assert((den * double::TOP) * t >= den * double::TOP) by (nonlinear_arith)
        requires
            t >= 1,
    ;
    if k > 0 {
        let h = big::two((k - 1) as nat);
        assert(((2 * den) * double::TOP) * h == (den * double::TOP) * (2 * h)) by (nonlinear_arith);
        lemma_infinite(num, 2 * den, e + 1);
    }
}

/// A number with hundreds of zeros behind it is infinite.
proof fn lemma_far_up(v: nat, e: nat)
    requires
        v >= 1,
        e >= 400,
    ensures
        powered(v, e as int) is Infinite,
{
    lemma_ten_over_two(e);
    double::lemma_two_monotone(1200, 3 * e);
    let (t, u) = (big::ten(e), big::two(1074));
    big::lemma_two_adds(1200, 1074);
    big::lemma_two_adds(53, 2045);
    double::lemma_two_monotone(53 + 2045, 1200 + 1074);
    double::lemma_two_53();
    let w = big::two(1200);
    assert((v * t) * u >= w * u) by (nonlinear_arith)
        requires
            v >= 1,
            t >= w,
    ;
    lemma_infinite((v * t) * u, 1, double::LEAST as int);
}

/// What rounds to nothing is nothing.
proof fn lemma_tiny(num: nat, den: nat)
    requires
        2 * num < den,
    ensures
        double::fitted(num, den, double::LEAST as int) == double::nothing(),
{
    assert(num < den * double::TOP) by (nonlinear_arith)
        requires
            2 * num < den,
            double::TOP >= 1,
    ;
    assert(num / den == 0 && num % den == num) by (nonlinear_arith)
        requires
            0 <= num < den,
    ;
}

/// A number with hundreds of zeros between it and the point is nothing.
proof fn lemma_far_down(v: nat, len: nat, e: nat)
    requires
        v < big::ten(len),
        e >= len + 400,
    ensures
        powered(v, -(e as int)) == double::nothing(),
{
    let k = (e - len) as nat;
    lemma_ten_adds(len, k);
    lemma_ten_over_two(k);
    double::lemma_two_monotone(1200, 3 * k);
    double::lemma_two_monotone(1075, 1200);
    let (p, q, u) = (big::ten(len), big::ten(k), big::two(1074));
    assert(big::two(1075) == 2 * u);
    assert(2 * (v * u) < p * q) by (nonlinear_arith)
        requires
            v < p,
            2 * u <= q,
            q >= 1,
    ;
    lemma_tiny(v * u, p * q);
}

fn value_of(s: &[char]) -> (r: Big)
    requires
        text::all_digits(s@),
    ensures
        r@ == text::value(s@),
{
    let mut r = Big::zero();
    let mut i: usize = 0;
    assert(s@.take(0) == Seq::<char>::empty());
    while i < s.len()
        invariant
            i <= s@.len(),
            text::all_digits(s@),
            r@ == text::value(s@.take(i as int)),
        decreases s@.len() - i,
    {
        assert(s@.take(i + 1).drop_last() == s@.take(i as int));
        assert(text::is_digit(s@[i as int]));
        r = r.times(10, s[i] as u32 - 48);
        i = i + 1;
    }
    assert(s@.take(i as int) == s@);
    r
}

fn strip_sign(s: &[char]) -> (r: &[char])
    ensures
        r@ == unsigned(s@),
{
    if s.len() > 0 && (s[0] == '+' || s[0] == '-') {
        slice_subrange(s, 1, s.len())
    } else {
        s
    }
}

/// The double nearest to the number of some digits times a power of ten.
fn power_digits(digits: &[char], e: i128) -> (r: Double)
    requires
        text::all_digits(digits@),
        -2 * FAR <= e <= 2 * FAR,
    ensures
        r == powered(text::value(digits@), e as int),
{
    let v = value_of(digits);
    proof {
        lemma_value_bound(digits@);
    }
    if v.minus(&Big::from_u64(1)).is_none() {
        proof {
            assert(0 * big::two(1074) == 0) by (nonlinear_arith);
            if e >= 0 {
                lemma_ten_adds(0, e as nat);
                assert(0 * big::ten(e as nat) == 0) by (nonlinear_arith);
                lemma_tiny(0, 1);
            } else {
                lemma_ten_adds(0, (-e) as nat);
                lemma_tiny(0, big::ten((-e) as nat));
            }
        }
        return Double::zero();
    }
    if e >= 400 {
        proof {
            lemma_far_up(v@, e as nat);
        }
        return Double::Infinite;
    }
    if e >= 0 {
        return double::nearest(&v.times_ten(e as u128), &Big::from_u64(1));
    }
    let down: u128 = (-e) as u128;
    if down >= digits.len() as u128 + 400 {
        proof {
            lemma_far_down(v@, digits@.len(), down as nat);
        }
        return Double::zero();
    }
    proof {
        lemma_ten_adds(0, down as nat);
        assert(1 * big::ten(down as nat) == big::ten(down as nat)) by (nonlinear_arith);
    }
    double::nearest(&v, &Big::from_u64(1).times_ten(down))
}

/// An exponent beyond all bounds gives what one at the bound gives.
proof fn lemma_far_exponent(digits: Seq<char>, frac: nat, x: nat)
    requires
        text::all_digits(digits),
        frac <= digits.len() <= usize::MAX,
        x >= FAR,
    ensures
        powered(text::value(digits), x - frac) == powered(text::value(digits), FAR - frac),
        powered(text::value(digits), -x - frac) == powered(text::value(digits), -FAR - frac),
{
    let v = text::value(digits);
    lemma_value_bound(digits);
    lemma_far_down(v, digits.len(), (x + frac) as nat);
    lemma_far_down(v, digits.len(), (FAR + frac) as nat);
    if v >= 1 {
        lemma_far_up(v, (x - frac) as nat);
        lemma_far_up(v, (FAR - frac) as nat);
    } else {
        let (a, b) = ((x - frac) as nat, (FAR - frac) as nat);
        assert(0 * big::ten(a) == 0 && 0 * big::ten(b) == 0) by (nonlinear_arith);
    }
}

/// The double nearest to an unsigned decimal number.
fn read_decimal(s: &[char]) -> (r: Option<Double>)
    ensures
        r == (if is_decimal(s@) {
            Some(decimal_double(s@))
        } else {
            None
        }),
{
    let low = text::to_lower(s);
    let e = text::find_char(low.as_slice(), 'e');
    let m = slice_subrange(s, 0, e);
    assert(m@ =~= mantissa(s@));
    let p = text::find_char(m, '.');
    let whole = slice_subrange(m, 0, p);
    let frac = if p < m.len() {
        slice_subrange(m, p + 1, m.len())
    } else {
        slice_subrange(m, p, p)
    };
    assert(whole@ =~= whole_digits(s@));
    assert(frac@ =~= fraction_digits(s@));
    if !digits_only(whole) || !digits_only(frac) || (whole.len() == 0 && frac.len() == 0) {
        return None;
    }
    let mut digits = vstd::slice::slice_to_vec(whole);
    let mut tail = vstd::slice::slice_to_vec(frac);
    digits.append(&mut tail);
    assert(digits@ =~= whole_digits(s@) + fraction_digits(s@));
    assert(text::all_digits(digits@)) by {
        assert forall|j: int| 0 <= j < digits@.len() implies text::is_digit(#[trigger] digits@[j]) by {
            if j < whole@.len() {
                assert(text::is_digit(whole@[j]));
            } else {
                assert(text::is_digit(frac@[j - whole@.len()]));
            }
        }
    }
    let mut exp: i128 = 0;
    if e < s.len() {
        let rest = slice_subrange(s, e + 1, s.len());
        assert(rest@ =~= s@.skip(exponent_at(s@) + 1));
        let ed = strip_sign(rest);
        if ed.len() == 0 || !digits_only(ed) {
            return None;
        }
        let v = capped_value(ed);
        exp = if rest.len() > 0 && rest[0] == '-' {
            -(v as i128)
        } else {
            v as i128
        };
        proof {
            if text::value(ed@) > FAR {
                lemma_far_exponent(digits@, frac@.len(), text::value(ed@));
            }
        }
    }
    Some(power_digits(digits.as_slice(), exp - frac.len() as i128))
}

/// Reads a number as `parse_number` says.
pub fn read_number(s: &[char]) -> (r: Option<Number>)
    ensures
        r == parse_number(s@),
{
    let body = strip_sign(s);
    let neg = s.len() > 0 && s[0] == '-';
    let low = text::string_of(text::to_lower(body).as_slice());
    if text::same(low.as_str(), "inf") || text::same(low.as_str(), "infinity") {
        return Some(Number::Signed { negative: neg, size: Double::Infinite });
    }
    if text::same(low.as_str(), "nan") {
        return Some(Number::Nan);
    }
    match read_decimal(body) {
        Some(size) => Some(Number::Signed { negative: neg, size }),
        None => None,
    }
}

// ───────────────────────── showing ─────────────────────────

/// The quotient in decimal with the given number of places, rounded half to even.
pub open spec fn decimal(num: nat, den: nat, places: nat) -> Seq<char> {
    let t = double::round_half_even(num * big::ten(places), den);
    let whole = text::dec(t / big::ten(places));
    if places == 0 {
        whole
    } else {
        whole.push('.') + text::pad_left(text::dec(t % big::ten(places)), '0', places)
    }
}

fn rounded(num: u128, den: u128) -> (r: u128)
    requires
        0 < den <= u128::MAX / 2,
        num < u128::MAX,
    ensures
        r == double::round_half_even(num as nat, den as nat),
{
    let q: u128 = num / den;
    let r: u128 = num % den;
    proof {
        assert(q <= num) by (nonlinear_arith)
            requires
                q == num / den,
                den > 0,
        ;
    }
    if 2 * r > den || (2 * r == den && q % 2 == 1) {
        q + 1
    } else {
        q
    }
}

/// The quotient in decimal, rounded to at most three places.
pub fn decimal_string(num: u64, den: u128, places: usize) -> (r: String)
    requires
        0 < den <= u128::MAX / 2,
        places <= 3,
    ensures
        r@ == decimal(num as nat, den as nat, places as nat),
{
    let mut scale: u128 = 1;
    let mut i: usize = 0;
    while i < places
        invariant
            i <= places <= 3,
            scale == big::ten(i as nat),
            i == 0 ==> scale == 1,
            i == 1 ==> scale == 10,
            i == 2 ==> scale == 100,
            i == 3 ==> scale == 1000,
        decreases places - i,
    {
        scale = scale * 10;
        i = i + 1;
    }
    proof {
        assert(num * scale <= 0xFFFF_FFFF_FFFF_FFFF * 1000) by (nonlinear_arith)
            requires
                num <= 0xFFFF_FFFF_FFFF_FFFF,
                scale <= 1000,
        ;
    }
    let t = rounded(num as u128 * scale, den);
    let mut r = text::dec_string(t / scale);
    if places > 0 {
        r.push('.');
        let f = text::dec_string(t % scale);
        text::push_left_padded(&mut r, f.as_str(), '0', places);
    }
    r
}

} // verus!
