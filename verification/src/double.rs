//! Double-precision numbers, computed with integers.
//!
//! Every operation gives the double nearest to the exact result, ties to the even one.
use vstd::prelude::*;

use crate::big;
use crate::big::Big;
use crate::fixed;
use crate::text;

verus! {

/// A double that is not negative.
#[derive(Clone, Copy, Debug, PartialEq, Eq, Structural)]
pub enum Double {
    /// The mantissa times two to the power of the exponent.
    Finite { mantissa: u64, exponent: i16 },
    Infinite,
}

/// A double.
#[derive(Clone, Copy, Debug, PartialEq, Eq, Structural)]
pub enum Number {
    Signed { negative: bool, size: Double },
    /// Not a number, which compares with nothing.
    Nan,
}

/// What no mantissa reaches: two to the power of 53.
pub const TOP: u64 = 0x20_0000_0000_0000;

/// The least exponent.
pub const LEAST: i16 = -1074;

/// The greatest exponent.
pub const GREATEST: i16 = 971;

// ───────────────────────── rounding ─────────────────────────

/// The quotient rounded to the nearest integer, ties to the even one.
pub open spec fn round_half_even(num: nat, den: nat) -> nat
    recommends
        den > 0,
{
    let q = num / den;
    let r = num % den;
    if 2 * r > den || (2 * r == den && q % 2 == 1) {
        q + 1
    } else {
        q
    }
}

/// The double with a mantissa that may have reached the top.
pub open spec fn settled(m: nat, e: int) -> Double {
    let (m, e) = if m == TOP {
        ((TOP / 2) as nat, e + 1)
    } else {
        (m, e)
    };
    if e > GREATEST {
        Double::Infinite
    } else {
        Double::Finite { mantissa: m as u64, exponent: e as i16 }
    }
}

/// The double nearest to `num / den` times two to the power of `e`, with the least
/// exponent from `e` on that leaves the mantissa below the top.
pub open spec fn fitted(num: nat, den: nat, e: int) -> Double
    decreases GREATEST - e,
{
    if num < den * TOP {
        settled(round_half_even(num, den), e)
    } else if e >= GREATEST {
        Double::Infinite
    } else {
        fitted(num, 2 * den, e + 1)
    }
}

/// The double nearest to a quotient.
pub open spec fn rounded(num: nat, den: nat) -> Double {
    fitted(num * big::two(1074), den, LEAST as int)
}

pub proof fn lemma_two_53()
    ensures
        big::two(53) == TOP,
{
    big::lemma_two_adds(36, 17);
    big::lemma_two_adds(18, 18);
    reveal_with_fuel(big::two, 19);
}

/// A division with `q` and `r` scaled by `t / den`, carried through.
proof fn lemma_divided(num: nat, den: nat, q: nat, r: nat)
    requires
        den > 0,
        num * TOP == q * (den * TOP) + r,
        r < den * TOP,
    ensures
        q == num / den,
        r == (num % den) * TOP,
        2 * r > den * TOP <==> 2 * (num % den) > den,
        2 * r == den * TOP <==> 2 * (num % den) == den,
{
    let k: int = num - q * den;
    assert(r == k * TOP) by (nonlinear_arith)
        requires
            num * TOP == q * (den * TOP) + r,
            k == num - q * den,
    ;
    assert(0 <= k < den) by (nonlinear_arith)
        requires
            r == k * TOP,
            0 <= r < den * TOP,
            TOP > 0,
    ;
    vstd::arithmetic::div_mod::lemma_fundamental_div_mod_converse(
        num as int,
        den as int,
        q as int,
        k,
    );
    assert((2 * r > den * TOP <==> 2 * k > den) && (2 * r == den * TOP <==> 2 * k == den))
        by (nonlinear_arith)
        requires
            r == k * TOP,
            TOP > 0,
    ;
}

/// The rounded quotient of a number by another that is given times the top.
fn quotient(num: &Big, top: &Big, Ghost(den): Ghost<nat>) -> (m: u64)
    requires
        den > 0,
        top@ == den * TOP,
        num@ < top@,
    ensures
        m == round_half_even(num@, den),
        m <= TOP,
{
    let mut q: u64 = 0;
    let mut r = num.copy();
    let mut i: u32 = 0;
    assert(num@ * 1 == 0 * top@ + num@) by (nonlinear_arith);
    while i < 53
        invariant
            i <= 53,
            num@ * big::two(i as nat) == q as nat * top@ + r@,
            r@ < top@,
            q < big::two(i as nat),
            i < 53 ==> big::two(i as nat) <= TOP / 2,
            i == 53 ==> big::two(i as nat) == TOP,
        decreases 53 - i,
    {
        proof {
            let t = big::two(i as nat);
            assert(num@ * (2 * t) == 2 * (num@ * t)) by (nonlinear_arith);
            assert((2 * q as nat) * top@ == 2 * (q as nat * top@)) by (nonlinear_arith);
            assert((2 * q as nat + 1) * top@ == 2 * (q as nat * top@) + top@) by (nonlinear_arith);
            lemma_two_grows(i as nat);
        }
        let twice = r.times(2, 0);
        q = q * 2;
        match twice.minus(top) {
            Some(d) => {
                r = d;
                q = q + 1;
            },
            None => {
                r = twice;
            },
        }
        i = i + 1;
    }
    proof {
        lemma_divided(num@, den, q as nat, r@);
        assert(q < TOP);
    }
    let twice = r.times(2, 0);
    match twice.minus(top) {
        Some(d) => {
            let even = d.minus(&Big::from_u64(1)).is_none();
            if !even || q % 2 == 1 {
                q + 1
            } else {
                q
            }
        },
        None => q,
    }
}

proof fn lemma_two_grows(i: nat)
    requires
        i < 53,
    ensures
        i + 1 < 53 ==> big::two(i + 1) <= TOP / 2,
        i + 1 == 53 ==> big::two(i + 1) == TOP,
{
    lemma_two_53();
    lemma_two_monotone(i + 1, 52);
    assert(big::two(53) == 2 * big::two(52));
}

pub proof fn lemma_two_monotone(a: nat, b: nat)
    ensures
        a <= b ==> big::two(a) <= big::two(b),
        big::two(a) >= 1,
    decreases a + b,
{
    if b > 0 && a <= b {
        if a < b {
            lemma_two_monotone(a, (b - 1) as nat);
        }
    }
    if a > 0 {
        lemma_two_monotone((a - 1) as nat, 0);
    }
}

/// What is still too large at a later exponent is too large at all before.
proof fn lemma_fitted_later(num: nat, den: nat, e: int, k: nat)
    requires
        e + k <= GREATEST,
        num >= (den * big::two(k)) * TOP,
    ensures
        fitted(num, den, e) == fitted(num, den * big::two(k), e + k),
    decreases k,
{
    let t = big::two(k);
    lemma_two_monotone(k, 0);
    assert(den * 1 == den) by (nonlinear_arith);
    if k > 0 {
        assert((den * t) * TOP >= den * TOP) by (nonlinear_arith)
            requires
                t >= 1,
        ;
        let h = big::two((k - 1) as nat);
        assert((2 * den) * h == den * (2 * h)) by (nonlinear_arith);
        lemma_fitted_later(num, 2 * den, e + 1, (k - 1) as nat);
    }
}

/// The double nearest to a quotient.
pub fn nearest(num: &Big, den: &Big) -> (r: Double)
    requires
        den@ > 0,
    ensures
        r == rounded(num@, den@),
{
    let n = num.doubled(1074);
    let mut top = den.doubled(53);
    let ghost mut d = den@;
    let mut e: i16 = LEAST;
    proof {
        lemma_two_53();
    }
    let mut near = false;
    while !near && e <= GREATEST - 31
        invariant
            LEAST <= e <= GREATEST,
            d > 0,
            top@ == d * TOP,
            fitted(n@, d, e as int) == rounded(num@, den@),
        decreases GREATEST - e + (if near { 0int } else { 1int }),
    {
        let far = top.times(0x8000_0000, 0);
        proof {
            reveal_with_fuel(big::two, 32);
            assert((d * TOP) * 0x8000_0000 == (d * 0x8000_0000) * TOP) by (nonlinear_arith);
        }
        if n.minus(&far).is_some() {
            proof {
                lemma_fitted_later(n@, d, e as int, 31);
                d = d * 0x8000_0000;
            }
            top = far;
            e = e + 31;
        } else {
            near = true;
        }
    }
    while e < GREATEST && n.minus(&top).is_some()
        invariant
            LEAST <= e <= GREATEST,
            d > 0,
            top@ == d * TOP,
            fitted(n@, d, e as int) == rounded(num@, den@),
        decreases GREATEST - e,
    {
        assert((d * TOP) * 2 == (2 * d) * TOP) by (nonlinear_arith);
        top = top.times(2, 0);
        proof {
            d = 2 * d;
        }
        e = e + 1;
    }
    if n.minus(&top).is_some() {
        return Double::Infinite;
    }
    let m = quotient(&n, &top, Ghost(d));
    if m == TOP {
        if e == GREATEST {
            Double::Infinite
        } else {
            Double::Finite { mantissa: TOP / 2, exponent: e + 1 }
        }
    } else {
        Double::Finite { mantissa: m, exponent: e }
    }
}

/// How far two numbers are apart.
pub open spec fn gap(a: nat, b: nat) -> nat {
    if a <= b {
        (b - a) as nat
    } else {
        (a - b) as nat
    }
}

/// No multiple is nearer than the rounded one.
proof fn lemma_nearest_multiple(num: nat, den: nat, c: nat)
    requires
        den > 0,
    ensures
        gap(round_half_even(num, den) * den, num) <= gap(c * den, num),
{
    let (q, r) = (num / den, num % den);
    assert(num == q * den + r && r < den) by (nonlinear_arith)
        requires
            q == num / den,
            r == num % den,
            den > 0,
    ;
    assert((q + 1) * den == q * den + den) by (nonlinear_arith);
    if c <= q {
        assert(c * den <= q * den) by (nonlinear_arith)
            requires
                c <= q,
        ;
    } else {
        assert(c * den >= (q + 1) * den) by (nonlinear_arith)
            requires
                c >= q + 1,
        ;
    }
}

/// As `law_rounding_is_nearest` says, from some exponent on. Numbers are in units of the
/// least double.
proof fn lemma_fitted_nearest(n: nat, den: nat, k: nat, m: nat, j: nat)
    requires
        den > 0,
        k <= GREATEST - LEAST,
        m < TOP,
        k == 0 || n >= (den * big::two(k)) * (TOP / 2) as nat,
        fitted(n, den * big::two(k), k + LEAST) is Finite,
    ensures
        ({
            let r = fitted(n, den * big::two(k), k + LEAST);
            &&& r->exponent >= LEAST
            &&& gap((r->mantissa as nat * big::two((r->exponent - LEAST) as nat)) * den, n) <= gap(
                (m * big::two(j)) * den,
                n,
            )
        }),
    decreases GREATEST - LEAST - k,
{
    let t = big::two(k);
    let d = den * t;
    let half = (TOP / 2) as nat;
    lemma_two_monotone(k, 0);
    assert(d > 0) by (nonlinear_arith)
        requires
            d == den * t,
            den > 0,
            t >= 1,
    ;
    if n < d * TOP {
        let q = round_half_even(n, d);
        assert(n / d < TOP) by (nonlinear_arith)
            requires
                n < d * TOP,
                d > 0,
        ;
        assert((q * t) * den == q * d) by (nonlinear_arith)
            requires
                d == den * t,
        ;
        if q == TOP {
            assert((half * (2 * t)) * den == q * d) by (nonlinear_arith)
                requires
                    d == den * t,
                    q == 2 * half,
            ;
            assert(big::two(k + 1) == 2 * t);
        }
        if j >= k {
            let c = m * big::two((j - k) as nat);
            big::lemma_two_adds(k, (j - k) as nat);
            let u = big::two((j - k) as nat);
            assert((m * (t * u)) * den == c * d) by (nonlinear_arith)
                requires
                    d == den * t,
                    c == m * u,
            ;
            lemma_nearest_multiple(n, d, c);
        } else {
            lemma_nearest_multiple(n, d, half);
            lemma_two_monotone(j, (k - 1) as nat);
            let (w, h) = (big::two(j), big::two((k - 1) as nat));
            assert((m * w) * den <= half * d) by (nonlinear_arith)
                requires
                    d == den * (2 * h),
                    w <= h,
                    m <= 2 * half,
            ;
            assert(half * d == d * half) by (nonlinear_arith);
        }
    } else {
        assert(den * (2 * t) == 2 * d) by (nonlinear_arith)
            requires
                d == den * t,
        ;
        assert((2 * d) * half == d * TOP) by (nonlinear_arith)
            requires
                2 * half == TOP,
        ;
        assert(big::two(k + 1) == 2 * t);
        lemma_fitted_nearest(n, den, k + 1, m, j);
    }
}

/// Rounding gives the nearest double: no other is closer to the quotient. The doubles are
/// compared with the quotient in units of the least one, times the denominator.
pub proof fn law_rounding_is_nearest(num: nat, den: nat, mantissa: u64, exponent: i16)
    requires
        den > 0,
        mantissa < TOP,
        LEAST <= exponent <= GREATEST,
        rounded(num, den) is Finite,
    ensures
        ({
            let r = rounded(num, den);
            let target = num * big::two(1074);
            gap((r->mantissa as nat * big::two((r->exponent - LEAST) as nat)) * den, target) <= gap(
                (mantissa as nat * big::two((exponent - LEAST) as nat)) * den,
                target,
            )
        }),
{
    assert(den * 1 == den) by (nonlinear_arith);
    lemma_fitted_nearest(
        num * big::two(1074),
        den,
        0,
        mantissa as nat,
        (exponent - LEAST) as nat,
    );
}

// ───────────────────────── arithmetic ─────────────────────────

pub open spec fn part_above(e: int) -> nat {
    if e > 0 {
        e as nat
    } else {
        0
    }
}

fn above(e: i16) -> (r: u32)
    ensures
        r == part_above(e as int),
{
    if e > 0 {
        e as u32
    } else {
        0
    }
}

fn below(e: i16) -> (r: u32)
    ensures
        r == part_above(-e),
{
    if e < 0 {
        (-(e as i32)) as u32
    } else {
        0
    }
}

/// Zero.
pub open spec fn nothing() -> Double {
    Double::Finite { mantissa: 0, exponent: LEAST }
}

impl Double {
    /// The numerator of a finite double as a fraction.
    pub open spec fn num(self) -> nat {
        match self {
            Double::Finite { mantissa, exponent } => mantissa as nat * big::two(
                part_above(exponent as int),
            ),
            Double::Infinite => 1,
        }
    }

    /// The denominator of a finite double as a fraction.
    pub open spec fn den(self) -> nat {
        match self {
            Double::Finite { mantissa, exponent } => big::two(part_above(-exponent)),
            Double::Infinite => 1,
        }
    }

    pub open spec fn is_zero(self) -> bool {
        self matches Double::Finite { mantissa, exponent } && mantissa == 0
    }

    pub fn is_nothing(self) -> (r: bool)
        ensures
            r == self.is_zero(),
    {
        match self {
            Double::Finite { mantissa, exponent: _ } => mantissa == 0,
            Double::Infinite => false,
        }
    }

    /// The numerator times another denominator.
    fn num_times(m: u64, e: i16, other: i16) -> (r: Big)
        ensures
            r@ == (m as nat * big::two(part_above(e as int))) * big::two(part_above(-other)),
    {
        Big::from_u64(m).doubled(above(e)).doubled(below(other))
    }

    pub fn zero() -> (r: Double)
        ensures
            r == nothing(),
    {
        Double::Finite { mantissa: 0, exponent: LEAST }
    }

    /// The double nearest to a quotient.
    pub fn ratio(num: u64, den: u64) -> (r: Double)
        requires
            den > 0,
        ensures
            r == rounded(num as nat, den as nat),
    {
        nearest(&Big::from_u64(num), &Big::from_u64(den))
    }

    /// The double nearest to a whole number.
    pub fn whole(n: u64) -> (r: Double)
        ensures
            r == rounded(n as nat, 1),
    {
        Double::ratio(n, 1)
    }

    pub open spec fn sum(self, other: Double) -> Double {
        if self is Infinite || other is Infinite {
            Double::Infinite
        } else {
            rounded(
                self.num() * other.den() + other.num() * self.den(),
                self.den() * other.den(),
            )
        }
    }

    pub fn plus(self, other: Double) -> (r: Double)
        ensures
            r == self.sum(other),
    {
        match (self, other) {
            (
                Double::Finite { mantissa: a, exponent: x },
                Double::Finite { mantissa: b, exponent: y },
            ) => {
                let n = Double::num_times(a, x, y).plus(&Double::num_times(b, y, x));
                let d = Big::from_u64(1).doubled(below(x)).doubled(below(y));
                proof {
                    lemma_dens(x as int, y as int);
                }
                nearest(&n, &d)
            },
            _ => Double::Infinite,
        }
    }

    /// Whether the number is less than the other.
    pub open spec fn under(self, other: Double) -> bool {
        match self {
            Double::Infinite => false,
            _ => other is Infinite || self.num() * other.den() < other.num() * self.den(),
        }
    }

    pub fn less(self, other: Double) -> (r: bool)
        ensures
            r == self.under(other),
    {
        match (self, other) {
            (
                Double::Finite { mantissa: a, exponent: x },
                Double::Finite { mantissa: b, exponent: y },
            ) => Double::num_times(a, x, y).minus(&Double::num_times(b, y, x)).is_none(),
            (Double::Finite { mantissa: _, exponent: _ }, Double::Infinite) => true,
            _ => false,
        }
    }

    /// The number without the other, and nothing where that would be negative.
    pub open spec fn excess(self, other: Double) -> Double {
        if self.under(other) {
            nothing()
        } else if self is Infinite {
            Double::Infinite
        } else {
            rounded(
                (self.num() * other.den() - other.num() * self.den()) as nat,
                self.den() * other.den(),
            )
        }
    }

    pub fn minus(self, other: Double) -> (r: Double)
        ensures
            r == self.excess(other),
    {
        match (self, other) {
            (
                Double::Finite { mantissa: a, exponent: x },
                Double::Finite { mantissa: b, exponent: y },
            ) => {
                proof {
                    lemma_dens(x as int, y as int);
                }
                match Double::num_times(a, x, y).minus(&Double::num_times(b, y, x)) {
                    Some(n) => nearest(
                        &n,
                        &Big::from_u64(1).doubled(below(x)).doubled(below(y)),
                    ),
                    None => Double::zero(),
                }
            },
            (Double::Finite { mantissa: _, exponent: _ }, Double::Infinite) => Double::zero(),
            _ => Double::Infinite,
        }
    }

    pub open spec fn share(self, other: Double) -> Double {
        if self is Infinite || other.is_zero() {
            Double::Infinite
        } else if other is Infinite {
            nothing()
        } else {
            rounded(self.num() * other.den(), other.num() * self.den())
        }
    }

    /// The number divided by another; by nothing gives infinity.
    pub fn over(self, other: Double) -> (r: Double)
        ensures
            r == self.share(other),
    {
        match (self, other) {
            (
                Double::Finite { mantissa: a, exponent: x },
                Double::Finite { mantissa: b, exponent: y },
            ) => {
                if b == 0 {
                    return Double::Infinite;
                }
                let n = Double::num_times(a, x, y);
                let d = Double::num_times(b, y, x);
                proof {
                    lemma_two_monotone(part_above(y as int), 0);
                    lemma_two_monotone(part_above(-x), 0);
                    let (p, q) = (big::two(part_above(y as int)), big::two(part_above(-x)));
                    assert((b as nat * p) * q > 0) by (nonlinear_arith)
                        requires
                            b > 0,
                            p >= 1,
                            q >= 1,
                    ;
                }
                nearest(&n, &d)
            },
            (Double::Finite { mantissa: _, exponent: _ }, Double::Infinite) => Double::zero(),
            _ => Double::Infinite,
        }
    }

    pub open spec fn product(self, factor: nat) -> Double {
        if self is Infinite {
            Double::Infinite
        } else {
            rounded(self.num() * factor, self.den())
        }
    }

    /// The number times a whole one that is not zero.
    pub fn times(self, factor: u32) -> (r: Double)
        requires
            factor > 0,
        ensures
            r == self.product(factor as nat),
    {
        match self {
            Double::Finite { mantissa: a, exponent: x } => {
                let n = Big::from_u64(a).doubled(above(x)).times(factor, 0);
                let d = Big::from_u64(1).doubled(below(x));
                proof {
                    lemma_dens(x as int, 0);
                }
                nearest(&n, &d)
            },
            Double::Infinite => Double::Infinite,
        }
    }
}

proof fn lemma_dens(x: int, y: int)
    ensures
        (1 * big::two(part_above(-x))) * big::two(part_above(-y)) == big::two(part_above(-x))
            * big::two(part_above(-y)),
        big::two(part_above(-x)) * big::two(part_above(-y)) > 0,
        1 * big::two(part_above(-x)) == big::two(part_above(-x)),
        big::two(part_above(-x)) > 0,
{
    let (p, q) = (big::two(part_above(-x)), big::two(part_above(-y)));
    lemma_two_monotone(part_above(-x), 0);
    lemma_two_monotone(part_above(-y), 0);
    assert((1 * p) * q == p * q && p * q > 0) by (nonlinear_arith)
        requires
            p >= 1,
            q >= 1,
    ;
}

/// A second, in nanoseconds.
pub const SECOND: u128 = 1_000_000_000;

/// The seconds of a time in nanoseconds: the whole seconds and the rest of a second,
/// each as a double, added up.
pub open spec fn seconds(nanos: u64) -> Double {
    rounded((nanos / 1_000_000_000) as nat, 1).sum(
        rounded((nanos % 1_000_000_000) as nat, 1_000_000_000),
    )
}

pub fn seconds_of(nanos: u64) -> (r: Double)
    ensures
        r == seconds(nanos),
{
    Double::whole(nanos / 1_000_000_000).plus(
        Double::ratio(nanos % 1_000_000_000, 1_000_000_000),
    )
}

/// A quotient of numbers that are both so many times larger rounds to the same.
proof fn lemma_fitted_scaled(num: nat, den: nat, k: nat, e: int)
    requires
        den > 0,
        k > 0,
    ensures
        fitted(k * num, k * den, e) == fitted(num, den, e),
    decreases GREATEST - e,
{
    let (q, r) = (num / den, num % den);
    assert(num == q * den + r && r < den) by (nonlinear_arith)
        requires
            q == num / den,
            r == num % den,
            den > 0,
    ;
    assert(k * num == q * (k * den) + k * r && k * r < k * den && k * den > 0) by (nonlinear_arith)
        requires
            num == q * den + r,
            r < den,
            k > 0,
    ;
    vstd::arithmetic::div_mod::lemma_fundamental_div_mod_converse(
        (k * num) as int,
        (k * den) as int,
        q as int,
        (k * r) as int,
    );
    assert((2 * (k * r) > k * den <==> 2 * r > den) && (2 * (k * r) == k * den <==> 2 * r == den))
        by (nonlinear_arith)
        requires
            k > 0,
    ;
    assert(k * num < (k * den) * TOP <==> num < den * TOP) by (nonlinear_arith)
        requires
            k > 0,
    ;
    if num >= den * TOP && e < GREATEST {
        assert(2 * (k * den) == k * (2 * den)) by (nonlinear_arith);
        lemma_fitted_scaled(num, 2 * den, k, e + 1);
    }
}

pub proof fn lemma_scaled(num: nat, den: nat, k: nat)
    requires
        den > 0,
        k > 0,
    ensures
        rounded(k * num, k * den) == rounded(num, den),
{
    let t = big::two(1074);
    assert((k * num) * t == k * (num * t)) by (nonlinear_arith);
    lemma_fitted_scaled(num * t, den, k, LEAST as int);
}

pub proof fn lemma_den_positive(d: Double)
    ensures
        d.den() > 0,
{
    match d {
        Double::Finite { mantissa, exponent } => lemma_two_monotone(part_above(-exponent), 0),
        Double::Infinite => {},
    }
}

/// What is not more than a whole number does not round to more.
proof fn lemma_fitted_within(num: nat, den: nat, e: int, c: nat)
    requires
        den > 0,
        LEAST <= e <= 0,
        c < TOP,
        num <= (c * den) * big::two((-e) as nat),
    ensures
        fitted(num, den, e) is Finite,
        fitted(num, den, e).num() <= c * fitted(num, den, e).den(),
    decreases -e,
{
    let t = big::two((-e) as nat);
    if num < den * TOP {
        let (q, r, k) = (num / den, num % den, c * t);
        assert(num == q * den + r && r < den) by (nonlinear_arith)
            requires
                q == num / den,
                r == num % den,
                den > 0,
        ;
        assert(q <= k && (q == k ==> r == 0)) by (nonlinear_arith)
            requires
                num == q * den + r,
                num <= (c * den) * t,
                k == c * t,
                den > 0,
                r >= 0,
        ;
        assert(q < TOP) by (nonlinear_arith)
            requires
                num == q * den + r,
                num < den * TOP,
                den > 0,
                r >= 0,
        ;
        let m = round_half_even(num, den);
        assert(m <= k);
        assert(m <= TOP);
        let half = (TOP / 2) as nat;
        assert(m * 1 == m && half * 1 == half && c * 1 == c) by (nonlinear_arith);
        if e == 0 {
            assert(big::two(0) == 1);
        } else if m == TOP {
            let h = big::two((-e - 1) as nat);
            assert(TOP / 2 <= c * h) by (nonlinear_arith)
                requires
                    TOP <= c * (2 * h),
            ;
            assert((TOP / 2) as u64 as nat == TOP / 2);
        }
    } else {
        if e == 0 {
            assert((c * den) * 1 < den * TOP) by (nonlinear_arith)
                requires
                    c < TOP,
                    den > 0,
            ;
        }
        let h = big::two((-e - 1) as nat);
        assert((c * den) * (2 * h) == (c * (2 * den)) * h) by (nonlinear_arith);
        lemma_fitted_within(num, 2 * den, e + 1, c);
    }
}

/// The double nearest to what is not more than a whole number is not more.
pub proof fn lemma_rounded_within(num: nat, den: nat, c: nat)
    requires
        den > 0,
        c < TOP,
        num <= c * den,
    ensures
        rounded(num, den) is Finite,
        rounded(num, den).num() <= c * rounded(num, den).den(),
{
    let t = big::two(1074);
    assert(num * t <= (c * den) * t) by (nonlinear_arith)
        requires
            num <= c * den,
    ;
    lemma_fitted_within(num * t, den, LEAST as int, c);
}

/// What is not tiny does not round to nothing.
proof fn lemma_fitted_something(num: nat, den: nat, e: int)
    requires
        den > 0,
        num >= den,
        LEAST <= e <= GREATEST,
    ensures
        !fitted(num, den, e).is_zero(),
        fitted(num, den, e) matches Double::Finite { mantissa, exponent } ==> exponent >= LEAST,
    decreases GREATEST - e,
{
    if num < den * TOP {
        let q = num / den;
        assert(1 <= q < TOP) by (nonlinear_arith)
            requires
                q == num / den,
                den <= num < den * TOP,
                den > 0,
        ;
    } else if e < GREATEST {
        assert(den * TOP >= 2 * den) by (nonlinear_arith)
            requires
                TOP >= 2,
        ;
        lemma_fitted_something(num, 2 * den, e + 1);
    }
}

/// A time that is not zero is not zero in seconds.
pub proof fn lemma_seconds_positive(nanos: u64)
    requires
        nanos > 0,
    ensures
        !seconds(nanos).is_zero(),
        seconds(nanos).num() > 0,
{
    let (w, f) = ((nanos / 1_000_000_000) as nat, (nanos % 1_000_000_000) as nat);
    let (a, b) = (rounded(w, 1), rounded(f, 1_000_000_000));
    let t = big::two(1074);
    assert(t >= 1_000_000_000) by {
        reveal_with_fuel(big::two, 31);
        lemma_two_monotone(30, 1074);
    }
    if w > 0 {
        assert(w * t >= 1) by (nonlinear_arith)
            requires
                w >= 1,
                t >= 1,
        ;
        lemma_fitted_something(w * t, 1, LEAST as int);
    } else {
        assert(f * t >= 1_000_000_000) by (nonlinear_arith)
            requires
                f >= 1,
                t >= 1_000_000_000,
        ;
        lemma_fitted_something(f * t, 1_000_000_000, LEAST as int);
    }
    lemma_den_positive(a);
    lemma_den_positive(b);
    if a is Finite && b is Finite {
        lemma_sum_something(a, b);
    }
    lemma_num_positive(a.sum(b));
}

/// Nothing rounds to nothing.
pub proof fn lemma_rounded_nothing(den: nat)
    requires
        den > 0,
    ensures
        rounded(0, den) == nothing(),
        nothing().num() == 0,
{
    let t = big::two(1074);
    assert(0 * t == 0) by (nonlinear_arith);
    assert(0 < den * TOP) by (nonlinear_arith)
        requires
            den > 0,
            TOP > 0,
    ;
    assert(0nat / den == 0 && 0nat % den == 0) by (nonlinear_arith)
        requires
            den > 0,
    ;
    assert(0 * big::two(part_above(LEAST as int)) == 0) by (nonlinear_arith);
}

pub proof fn lemma_seconds_of_nothing()
    ensures
        seconds(0) == nothing(),
{
    lemma_rounded_nothing(1);
    lemma_rounded_nothing(1_000_000_000);
    let d = nothing().den();
    lemma_den_positive(nothing());
    assert(0 * d + 0 * d == 0 && d * d > 0) by (nonlinear_arith)
        requires
            d > 0,
    ;
    lemma_rounded_nothing(d * d);
}

/// A fraction that is not tiny is more than nothing.
pub proof fn lemma_fraction_positive(num: nat, den: nat)
    requires
        num > 0,
        0 < den <= 1_000_000_000,
    ensures
        nothing().under(rounded(num, den)),
{
    let t = big::two(1074);
    assert(t >= 1_000_000_000) by {
        reveal_with_fuel(big::two, 31);
        lemma_two_monotone(30, 1074);
    }
    assert(num * t >= den) by (nonlinear_arith)
        requires
            num >= 1,
            t >= den,
    ;
    lemma_fitted_something(num * t, den, LEAST as int);
    lemma_over_nothing(rounded(num, den));
}

/// What is not zero is more than nothing.
pub proof fn lemma_over_nothing(d: Double)
    requires
        !d.is_zero(),
    ensures
        nothing().under(d),
{
    lemma_rounded_nothing(1);
    lemma_num_positive(d);
    lemma_den_positive(nothing());
    let (n, q, p) = (d.num(), nothing().den(), d.den());
    assert(0 * p < n * q) by (nonlinear_arith)
        requires
            n > 0,
            q > 0,
    ;
}

/// What is not less than something is something.
pub proof fn lemma_something_more(d: Double, least: Double)
    requires
        !d.under(least),
        nothing().under(least),
    ensures
        !d.is_zero(),
{
    lemma_rounded_nothing(1);
    lemma_den_positive(d);
    lemma_den_positive(nothing());
    if d.is_zero() && least is Finite {
        let (n, q, p, x) = (least.num(), nothing().den(), least.den(), d.den());
        assert(d.num() == 0) by {
            let y = big::two(part_above(d->exponent as int));
            assert(0 * y == 0) by (nonlinear_arith);
        }
        assert(0 * p < n * x) by (nonlinear_arith)
            requires
                0 * p < n * q,
                q > 0,
                x > 0,
        ;
    }
}

proof fn lemma_num_positive(d: Double)
    requires
        !d.is_zero(),
    ensures
        d.num() > 0,
{
    match d {
        Double::Finite { mantissa, exponent } => {
            lemma_two_monotone(part_above(exponent as int), 0);
            let p = big::two(part_above(exponent as int));
            assert(mantissa as nat * p > 0) by (nonlinear_arith)
                requires
                    mantissa > 0,
                    p > 0,
            ;
        },
        Double::Infinite => {},
    }
}

/// A sum is something where one of its parts is.
proof fn lemma_sum_something(a: Double, b: Double)
    requires
        a is Finite,
        b is Finite,
        (!a.is_zero() && a->exponent >= LEAST) || (!b.is_zero() && b->exponent >= LEAST),
    ensures
        !a.sum(b).is_zero(),
{
    let t = big::two(1074);
    let (n, m, p, q) = (a.num(), b.num(), a.den(), b.den());
    lemma_den_positive(a);
    lemma_den_positive(b);
    if !a.is_zero() && a->exponent >= LEAST {
        lemma_num_positive(a);
        lemma_two_monotone(part_above(-(a->exponent)), 1074);
        assert((n * q + m * p) * t >= p * q) by (nonlinear_arith)
            requires
                n >= 1,
                t >= p,
                p > 0,
                q > 0,
                m >= 0,
        ;
    } else {
        lemma_num_positive(b);
        lemma_two_monotone(part_above(-(b->exponent)), 1074);
        assert((n * q + m * p) * t >= p * q) by (nonlinear_arith)
            requires
                m >= 1,
                t >= q,
                p > 0,
                q > 0,
                n >= 0,
        ;
    }
    assert(p * q > 0) by (nonlinear_arith)
        requires
            p > 0,
            q > 0,
    ;
    lemma_fitted_something((n * q + m * p) * t, p * q, LEAST as int);
}

// ───────────────────────── showing ─────────────────────────

/// Less than half of the last place shows as nothing.
proof fn lemma_shown_as_nothing(m: u64, k: nat, places: nat)
    requires
        k > 80,
        places <= 3,
    ensures
        fixed::decimal(m as nat, big::two(k), places) == fixed::decimal(0, 1, places),
{
    let d = big::two(k);
    let t = big::ten(places);
    reveal_with_fuel(big::ten, 4);
    lemma_two_monotone(80, k);
    lemma_two_80();
    assert(m as nat * t <= m as nat * 1000) by (nonlinear_arith)
        requires
            t <= 1000,
    ;
    let n = m as nat * t;
    assert(n / d == 0 && n % d == n) by (nonlinear_arith)
        requires
            0 <= n < d,
    ;
    assert(0 * t == 0) by (nonlinear_arith);
}

/// A whole number has zeros behind the point.
proof fn lemma_shown_whole(n: nat, places: nat)
    requires
        places <= 3,
    ensures
        ({
            let t = round_half_even(n * big::ten(places), 1);
            t / big::ten(places) == n && t % big::ten(places) == 0
        }),
{
    reveal_with_fuel(big::ten, 4);
    let t = big::ten(places);
    vstd::arithmetic::div_mod::lemma_fundamental_div_mod_converse(
        (n * t) as int,
        t as int,
        n as int,
        0,
    );
}

fn power_of_two(k: u32) -> (r: u128)
    requires
        k <= 80,
    ensures
        r == big::two(k as nat),
        0 < r <= u128::MAX / 2,
{
    let mut r: u128 = 1;
    let mut i: u32 = 0;
    proof {
        lemma_two_80();
    }
    while i < k
        invariant
            i <= k <= 80,
            r == big::two(i as nat),
            r > 0,
            big::two(80) <= u128::MAX / 2,
        decreases k - i,
    {
        proof {
            lemma_two_monotone((i + 1) as nat, 80);
        }
        r = r * 2;
        i = i + 1;
    }
    proof {
        lemma_two_monotone(k as nat, 80);
    }
    r
}

proof fn lemma_two_80()
    ensures
        big::two(80) == 0x1_0000_0000_0000_0000_0000,
{
    big::lemma_two_adds(60, 20);
    big::lemma_two_adds(40, 20);
    big::lemma_two_adds(20, 20);
    reveal_with_fuel(big::two, 21);
}

impl Double {
    /// The number in decimal with the given number of places.
    pub open spec fn text(self, places: nat) -> Seq<char> {
        if self is Infinite {
            "inf"@
        } else {
            fixed::decimal(self.num(), self.den(), places)
        }
    }

    /// The number in decimal, with at most three places.
    pub fn show(self, places: usize) -> (r: String)
        requires
            places <= 3,
        ensures
            r@ == self.text(places as nat),
    {
        match self {
            Double::Infinite => "inf".to_owned(),
            Double::Finite { mantissa, exponent } => {
                proof {
                    assert(mantissa as nat * 1 == mantissa) by (nonlinear_arith);
                }
                if exponent < 0 {
                    let k = below(exponent);
                    if k > 80 {
                        proof {
                            lemma_shown_as_nothing(mantissa, k as nat, places as nat);
                        }
                        fixed::decimal_string(0, 1, places)
                    } else {
                        fixed::decimal_string(mantissa, power_of_two(k), places)
                    }
                } else {
                    let n = Big::from_u64(mantissa).doubled(above(exponent));
                    let mut r = String::new();
                    n.push_decimal(&mut r);
                    proof {
                        lemma_shown_whole(n@, places as nat);
                    }
                    assert(r@ =~= text::dec(n@));
                    if places > 0 {
                        r.push('.');
                        let f = text::dec_string(0);
                        text::push_left_padded(&mut r, f.as_str(), '0', places);
                    }
                    r
                }
            },
        }
    }
}

// ───────────────────────── with a sign ─────────────────────────

impl Number {
    /// The double that 64 bits stand for: a sign, eleven bits of exponent and 52 bits of
    /// fraction.
    pub open spec fn of_bits(bits: u64) -> Number {
        let negative = bits / 0x8000_0000_0000_0000 == 1;
        let exponent = (bits / 0x10_0000_0000_0000) % 0x800;
        let fraction = bits % 0x10_0000_0000_0000;
        if exponent == 0x7FF {
            if fraction == 0 {
                Number::Signed { negative, size: Double::Infinite }
            } else {
                Number::Nan
            }
        } else if exponent == 0 {
            Number::Signed {
                negative,
                size: Double::Finite { mantissa: fraction, exponent: LEAST },
            }
        } else {
            Number::Signed {
                negative,
                size: Double::Finite {
                    mantissa: (0x10_0000_0000_0000 + fraction) as u64,
                    exponent: (exponent - 1075) as i16,
                },
            }
        }
    }

    pub fn from_bits(bits: u64) -> (r: Number)
        ensures
            r == Number::of_bits(bits),
    {
        let negative = bits / 0x8000_0000_0000_0000 == 1;
        let exponent: u64 = (bits / 0x10_0000_0000_0000) % 0x800;
        let fraction: u64 = bits % 0x10_0000_0000_0000;
        if exponent == 0x7FF {
            if fraction == 0 {
                Number::Signed { negative, size: Double::Infinite }
            } else {
                Number::Nan
            }
        } else if exponent == 0 {
            Number::Signed {
                negative,
                size: Double::Finite { mantissa: fraction, exponent: LEAST },
            }
        } else {
            Number::Signed {
                negative,
                size: Double::Finite {
                    mantissa: 0x10_0000_0000_0000 + fraction,
                    exponent: exponent as i16 - 1075,
                },
            }
        }
    }

    /// The number, or the floor where it is less or not a number.
    pub open spec fn at_least(self, floor: Double) -> Double {
        match self {
            Number::Signed { negative: false, size } if !size.under(floor) => size,
            _ => floor,
        }
    }

    pub fn floored(self, floor: Double) -> (r: Double)
        ensures
            r == self.at_least(floor),
    {
        match self {
            Number::Signed { negative, size } => if !negative && !size.less(floor) {
                size
            } else {
                floor
            },
            Number::Nan => floor,
        }
    }

    /// Whether the number is as large as one that is not negative.
    pub open spec fn reaches(self, least: Double) -> bool {
        match self {
            Number::Signed { negative, size } => if negative {
                size.is_zero() && least.is_zero()
            } else {
                !size.under(least)
            },
            Number::Nan => false,
        }
    }

    pub fn is_at_least(self, least: Double) -> (r: bool)
        ensures
            r == self.reaches(least),
    {
        match self {
            Number::Signed { negative, size } => if negative {
                size.is_nothing() && least.is_nothing()
            } else {
                !size.less(least)
            },
            Number::Nan => false,
        }
    }

    /// Whether the number is less than zero.
    pub open spec fn below_zero(self) -> bool {
        self matches Number::Signed { negative, size } && negative && !size.is_zero()
    }

    pub fn is_below_zero(self) -> (r: bool)
        ensures
            r == self.below_zero(),
    {
        match self {
            Number::Signed { negative, size } => negative && !size.is_nothing(),
            Number::Nan => false,
        }
    }

    /// The number in decimal with the given number of places.
    pub open spec fn text(self, places: nat) -> Seq<char> {
        match self {
            Number::Signed { negative, size } => if negative {
                seq!['-'] + size.text(places)
            } else {
                size.text(places)
            },
            Number::Nan => "NaN"@,
        }
    }

    /// The number in decimal, with at most three places.
    pub fn show(self, places: usize) -> (r: String)
        requires
            places <= 3,
        ensures
            r@ == self.text(places as nat),
    {
        match self {
            Number::Signed { negative, size } => {
                if negative {
                    let mut r = String::new();
                    r.push('-');
                    let s = size.show(places);
                    r.append(s.as_str());
                    assert(r@ =~= seq!['-'] + size.text(places as nat));
                    r
                } else {
                    size.show(places)
                }
            },
            Number::Nan => "NaN".to_owned(),
        }
    }
}

} // verus!
