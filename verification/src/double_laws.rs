//! What holds of double-precision numbers: their order and their arithmetic are those of
//! the numbers that they stand for, as near as a double comes.
use vstd::prelude::*;

use crate::big;
use crate::double;
use crate::double::{Double, Number};
use crate::fixed;
use crate::text;

verus! {

/// Whether a number is a finite double.
pub open spec fn proper(d: Double) -> bool {
    d matches Double::Finite { mantissa, exponent } && mantissa < double::TOP && double::LEAST
        <= exponent <= double::GREATEST
}

/// How many times the least double a finite one is.
pub open spec fn units(d: Double) -> nat {
    match d {
        Double::Finite { mantissa, exponent } => mantissa as nat * big::two(
            (exponent - double::LEAST) as nat,
        ),
        Double::Infinite => 0,
    }
}

/// The fraction of a double and its units say the same.
proof fn lemma_units(d: Double)
    requires
        d is Finite,
        d->exponent >= double::LEAST,
    ensures
        d.num() * big::two(1074) == units(d) * d.den(),
        d.den() > 0,
{
    double::lemma_den_positive(d);
    let (m, e) = (d->mantissa as nat, d->exponent as int);
    let (up, down, all) = (double::part_above(e), double::part_above(-e), (e + 1074) as nat);
    big::lemma_two_adds(all, down);
    big::lemma_two_adds(up, 1074);
    assert(all + down == up + 1074);
    let (a, b, p, q) = (big::two(up), big::two(1074), big::two(all), big::two(down));
    assert((m * a) * b == (m * p) * q) by (nonlinear_arith)
        requires
            a * b == p * q,
    ;
}

/// Rounding gives a proper double or infinity.
proof fn lemma_fitted_proper(num: nat, den: nat, e: int)
    requires
        den > 0,
        double::LEAST <= e <= double::GREATEST,
    ensures
        double::fitted(num, den, e) is Finite ==> proper(double::fitted(num, den, e)),
    decreases double::GREATEST - e,
{
    if num < den * double::TOP {
        assert(num / den < double::TOP) by (nonlinear_arith)
            requires
                num < den * double::TOP,
                den > 0,
        ;
    } else if e < double::GREATEST {
        lemma_fitted_proper(num, 2 * den, e + 1);
    }
}

pub proof fn lemma_rounded_proper(num: nat, den: nat)
    requires
        den > 0,
    ensures
        double::rounded(num, den) is Finite ==> proper(double::rounded(num, den)),
{
    lemma_fitted_proper(num * big::two(1074), den, double::LEAST as int);
}

/// Scaling two numbers scales how far they are apart.
proof fn lemma_gap_scaled(a: nat, b: nat, k: nat)
    ensures
        double::gap(a * k, b * k) == double::gap(a, b) * k,
{
    if a <= b {
        assert(b * k - a * k == (b - a) * k && a * k <= b * k) by (nonlinear_arith)
            requires
                a <= b,
        ;
    } else {
        assert(a * k - b * k == (a - b) * k && a * k >= b * k) by (nonlinear_arith)
            requires
                a >= b,
        ;
    }
}

/// What is nearer after scaling was nearer before.
proof fn lemma_nearer(a: nat, b: nat, target: nat, k: nat)
    requires
        k > 0,
        double::gap(a * k, target * k) <= double::gap(b * k, target * k),
    ensures
        double::gap(a, target) <= double::gap(b, target),
{
    lemma_gap_scaled(a, target, k);
    lemma_gap_scaled(b, target, k);
    let (x, y) = (double::gap(a, target), double::gap(b, target));
    assert(x <= y) by (nonlinear_arith)
        requires
            x * k <= y * k,
            k > 0,
    ;
}

/// No double is nearer to a quotient than the one that it is rounded to.
proof fn lemma_rounded_nearest(num: nat, den: nat, target: nat, k: nat, x: Double)
    requires
        den > 0,
        k > 0,
        den % k == 0,
        num * big::two(1074) == target * k,
        proper(x),
        double::rounded(num, den) is Finite,
    ensures
        ({
            let r = double::rounded(num, den);
            double::gap(units(r) * (den / k), target) <= double::gap(units(x) * (den / k), target)
        }),
{
    let r = double::rounded(num, den);
    lemma_rounded_proper(num, den);
    double::law_rounding_is_nearest(num, den, x->mantissa, x->exponent);
    let (u, v, d) = (units(r), units(x), den / k);
    assert(den == d * k) by (nonlinear_arith)
        requires
            den % k == 0,
            d == den / k,
            k > 0,
    ;
    assert(u * (d * k) == (u * d) * k && v * (d * k) == (v * d) * k) by (nonlinear_arith);
    lemma_nearer(u * d, v * d, target, k);
}

/// Doubles are ordered by what they stand for, and infinity is above them all.
pub proof fn law_order_is_that_of_the_values(a: Double, b: Double)
    ensures
        proper(a) && proper(b) ==> (a.under(b) <==> units(a) < units(b)),
        proper(a) && b is Infinite ==> a.under(b),
        a is Infinite ==> !a.under(b),
{
    if proper(a) && proper(b) {
        lemma_units(a);
        lemma_units(b);
        let (na, nb, da, db, t) = (a.num(), b.num(), a.den(), b.den(), big::two(1074));
        let (u, v) = (units(a), units(b));
        double::lemma_two_monotone(1074, 0);
        assert((na * db) * t == u * (da * db) && (nb * da) * t == v * (da * db)) by (nonlinear_arith)
            requires
                na * t == u * da,
                nb * t == v * db,
        ;
        let (x, y, k) = (na * db, nb * da, da * db);
        assert(k > 0) by (nonlinear_arith)
            requires
                da > 0,
                db > 0,
                k == da * db,
        ;
        assert(x < y <==> u < v) by (nonlinear_arith)
            requires
                x * t == u * k,
                y * t == v * k,
                k > 0,
                t > 0,
        ;
    }
}

/// A sum is the double nearest to the exact sum.
pub proof fn law_sums_are_nearest(a: Double, b: Double, x: Double)
    requires
        proper(a),
        proper(b),
        proper(x),
        a.sum(b) is Finite,
    ensures
        double::gap(units(a.sum(b)), units(a) + units(b)) <= double::gap(
            units(x),
            units(a) + units(b),
        ),
{
    lemma_units(a);
    lemma_units(b);
    let (na, nb, da, db, t) = (a.num(), b.num(), a.den(), b.den(), big::two(1074));
    let (u, v, k) = (units(a), units(b), da * db);
    assert((na * db + nb * da) * t == (u + v) * k && k > 0 && k % k == 0 && k / k == 1)
        by (nonlinear_arith)
        requires
            na * t == u * da,
            nb * t == v * db,
            da > 0,
            db > 0,
            k == da * db,
    ;
    lemma_rounded_nearest(na * db + nb * da, k, u + v, k, x);
}

/// A difference is the double nearest to the exact one, and zero where that is negative.
pub proof fn law_differences_are_nearest(a: Double, b: Double, x: Double)
    requires
        proper(a),
        proper(b),
        proper(x),
    ensures
        units(a) <= units(b) ==> a.excess(b).is_zero(),
        units(a) >= units(b) && a.excess(b) is Finite ==> double::gap(
            units(a.excess(b)),
            (units(a) - units(b)) as nat,
        ) <= double::gap(units(x), (units(a) - units(b)) as nat),
{
    law_order_is_that_of_the_values(a, b);
    if units(a) >= units(b) {
        lemma_units(a);
        lemma_units(b);
        let (na, nb, da, db, t) = (a.num(), b.num(), a.den(), b.den(), big::two(1074));
        let (u, v, k) = (units(a), units(b), da * db);
        assert(na * db >= nb * da);
        let n = (na * db - nb * da) as nat;
        let w = (u - v) as nat;
        assert(n * t == w * k && k > 0 && k % k == 0 && k / k == 1) by (nonlinear_arith)
            requires
                na * t == u * da,
                nb * t == v * db,
                da > 0,
                db > 0,
                k == da * db,
                n == na * db - nb * da,
                w == u - v,
        ;
        if w == 0 {
            double::lemma_two_monotone(1074, 0);
            assert(n == 0) by (nonlinear_arith)
                requires
                    n * t == 0 * k,
                    t > 0,
            ;
            double::lemma_rounded_nothing(k);
        }
        if a.excess(b) is Finite {
            lemma_rounded_nearest(n, k, w, k, x);
        }
    }
}

/// A multiple is the double nearest to the exact one.
pub proof fn law_multiples_are_nearest(a: Double, factor: nat, x: Double)
    requires
        proper(a),
        proper(x),
        a.product(factor) is Finite,
    ensures
        double::gap(units(a.product(factor)), units(a) * factor) <= double::gap(
            units(x),
            units(a) * factor,
        ),
{
    lemma_units(a);
    let (n, d, t, u) = (a.num(), a.den(), big::two(1074), units(a));
    assert((n * factor) * t == (u * factor) * d && d % d == 0 && d / d == 1) by (nonlinear_arith)
        requires
            n * t == u * d,
            d > 0,
    ;
    lemma_rounded_nearest(n * factor, d, u * factor, d, x);
}

/// A quotient is the double nearest to the exact one: times the divisor it comes nearest
/// to the dividend.
pub proof fn law_quotients_are_nearest(a: Double, b: Double, x: Double)
    requires
        proper(a),
        proper(b),
        proper(x),
        units(b) > 0,
        a.share(b) is Finite,
    ensures
        double::gap(units(a.share(b)) * units(b), units(a) * big::two(1074)) <= double::gap(
            units(x) * units(b),
            units(a) * big::two(1074),
        ),
{
    lemma_units(a);
    lemma_units(b);
    let (na, nb, da, db, t) = (a.num(), b.num(), a.den(), b.den(), big::two(1074));
    let (u, v) = (units(a), units(b));
    double::lemma_two_monotone(1074, 0);
    assert(nb > 0) by (nonlinear_arith)
        requires
            nb * t == v * db,
            v > 0,
            db > 0,
    ;
    if b.is_zero() {
        assert(0 * big::two((b->exponent - double::LEAST) as nat) == 0) by (nonlinear_arith);
    }
    let den = nb * da;
    assert((na * db) * t == (u * db) * da && den > 0 && den % da == 0 && den / da == nb)
        by (nonlinear_arith)
        requires
            na * t == u * da,
            da > 0,
            nb > 0,
            den == nb * da,
    ;
    lemma_rounded_nearest(na * db, den, u * db, da, x);
    let r = a.share(b);
    let (p, q) = (units(r), units(x));
    // from the fraction of the divisor to its units
    lemma_gap_scaled(p * nb, u * db, t);
    lemma_gap_scaled(q * nb, u * db, t);
    let (g, h) = (double::gap(p * nb, u * db), double::gap(q * nb, u * db));
    assert(g * t <= h * t) by (nonlinear_arith)
        requires
            g <= h,
    ;
    assert((p * nb) * t == (p * v) * db && (q * nb) * t == (q * v) * db && (u * db) * t == (u * t)
        * db) by (nonlinear_arith)
        requires
            nb * t == v * db,
    ;
    lemma_nearer(p * v, q * v, u * t, db);
}

/// What some double reaches is not rounded to infinity.
proof fn lemma_fitted_finite(n: nat, den: nat, k: nat)
    requires
        den > 0,
        k <= 2045,
        n <= ((double::TOP - 1) as nat * big::two(2045)) * den,
    ensures
        double::fitted(n, den * big::two(k), k + double::LEAST) is Finite,
    decreases 2045 - k,
{
    let t = big::two(k);
    let d = den * t;
    double::lemma_two_monotone(k, 0);
    assert(d > 0) by (nonlinear_arith)
        requires
            d == den * t,
            den > 0,
            t >= 1,
    ;
    if k == 2045 {
        let top = (double::TOP - 1) as nat;
        assert(n <= top * d) by (nonlinear_arith)
            requires
                n <= (top * t) * den,
                d == den * t,
        ;
        assert(n < d * double::TOP && (n / d < top || (n / d == top && n % d == 0)))
            by (nonlinear_arith)
            requires
                n <= top * d,
                top == double::TOP - 1,
                d > 0,
        ;
    } else if n < d * double::TOP {
        assert(n / d < double::TOP) by (nonlinear_arith)
            requires
                n < d * double::TOP,
                d > 0,
        ;
    } else {
        assert(den * (2 * t) == 2 * d) by (nonlinear_arith)
            requires
                d == den * t,
        ;
        assert(big::two(k + 1) == 2 * t);
        lemma_fitted_finite(n, den, k + 1);
    }
}

/// Rounding goes to infinity only above every double.
pub proof fn law_only_what_is_too_large_is_infinite(num: nat, den: nat, x: Double)
    requires
        den > 0,
        proper(x),
        num * big::two(1074) <= units(x) * den,
    ensures
        double::rounded(num, den) is Finite,
{
    let (m, k) = (x->mantissa as nat, (x->exponent - double::LEAST) as nat);
    double::lemma_two_monotone(k, 2045);
    let (t, top, all) = (big::two(k), (double::TOP - 1) as nat, big::two(2045));
    assert((m * t) * den <= (top * all) * den) by (nonlinear_arith)
        requires
            m <= top,
            t <= all,
    ;
    assert(den * 1 == den) by (nonlinear_arith);
    lemma_fitted_finite(num * big::two(1074), den, 0);
}

/// Rounding does not pass a double: what is at most one rounds to at most that one, and
/// what is at least one rounds to at least that one.
pub proof fn law_rounding_passes_no_double(num: nat, den: nat, x: Double)
    requires
        den > 0,
        proper(x),
    ensures
        num * big::two(1074) <= units(x) * den ==> !x.under(double::rounded(num, den)),
        num * big::two(1074) >= units(x) * den ==> !double::rounded(num, den).under(x),
{
    let r = double::rounded(num, den);
    let target = num * big::two(1074);
    if target <= units(x) * den {
        law_only_what_is_too_large_is_infinite(num, den, x);
    }
    if r is Finite {
        lemma_rounded_proper(num, den);
        double::law_rounding_is_nearest(num, den, x->mantissa, x->exponent);
        law_order_is_that_of_the_values(x, r);
        law_order_is_that_of_the_values(r, x);
        let (u, v) = (units(r), units(x));
        if target <= v * den && u > v {
            assert(u * den > v * den) by (nonlinear_arith)
                requires
                    u > v,
                    den > 0,
            ;
        }
        if target >= v * den && u < v {
            assert(u * den < v * den) by (nonlinear_arith)
                requires
                    u < v,
                    den > 0,
            ;
        }
    }
}

/// A whole number below two to the power of 53 is a double as it stands.
pub proof fn law_whole_numbers_are_exact(n: nat)
    requires
        n < double::TOP,
    ensures
        proper(double::rounded(n, 1)),
        units(double::rounded(n, 1)) == n * big::two(1074),
{
    let x = Double::Finite { mantissa: n as u64, exponent: 0 };
    let r = double::rounded(n, 1);
    let t = n * big::two(1074);
    assert(units(x) == t);
    assert(t * 1 == t) by (nonlinear_arith);
    law_rounding_passes_no_double(n, 1, x);
    lemma_rounded_proper(n, 1);
    law_order_is_that_of_the_values(x, r);
    law_order_is_that_of_the_values(r, x);
}

/// A sum does not pass a double that the exact sum does not pass.
proof fn lemma_sum_passes_no_double(a: Double, b: Double, x: Double)
    requires
        proper(a),
        proper(b),
        proper(x),
    ensures
        units(a) + units(b) <= units(x) ==> !x.under(a.sum(b)),
        units(a) + units(b) >= units(x) ==> !a.sum(b).under(x),
        a.sum(b) is Finite ==> proper(a.sum(b)),
{
    lemma_units(a);
    lemma_units(b);
    let (na, nb, da, db, t) = (a.num(), b.num(), a.den(), b.den(), big::two(1074));
    let (u, v, w, k) = (units(a), units(b), units(x), da * db);
    assert((na * db + nb * da) * t == (u + v) * k && k > 0) by (nonlinear_arith)
        requires
            na * t == u * da,
            nb * t == v * db,
            da > 0,
            db > 0,
            k == da * db,
    ;
    if u + v <= w {
        assert((u + v) * k <= w * k) by (nonlinear_arith)
            requires
                u + v <= w,
        ;
    }
    if u + v >= w {
        assert((u + v) * k >= w * k) by (nonlinear_arith)
            requires
                u + v >= w,
        ;
    }
    law_rounding_passes_no_double(na * db + nb * da, k, x);
    lemma_rounded_proper(na * db + nb * da, k);
}

/// A time in nanoseconds is less than a whole number of seconds as a double where it is
/// less as it stands: rounding neither loses nor adds the last nanosecond.
pub proof fn law_seconds_compare_like_nanoseconds(nanos: u64, secs: nat)
    requires
        secs < 0x40_0000,
    ensures
        double::seconds(nanos).under(double::rounded(secs, 1)) <==> nanos < secs * 1_000_000_000,
{
    let (w, f) = ((nanos / 1_000_000_000) as nat, (nanos % 1_000_000_000) as nat);
    let (a, b) = (double::rounded(w, 1), double::rounded(f, 1_000_000_000));
    let h = double::rounded(secs, 1);
    let s = double::seconds(nanos);
    law_whole_numbers_are_exact(w);
    law_whole_numbers_are_exact(secs);
    let t = big::two(1044);
    big::lemma_two_adds(1044, 30);
    double::lemma_two_monotone(1044, 0);
    assert(big::two(30) == 0x4000_0000) by {
        reveal_with_fuel(big::two, 31);
    }
    // the greatest fraction of a second
    let y = Double::Finite { mantissa: 0x3FFF_FFFF, exponent: -30i16 };
    assert(units(y) == 0x3FFF_FFFF * t);
    assert((f * (t * 0x4000_0000)) <= (0x3FFF_FFFF * t) * 1_000_000_000) by (nonlinear_arith)
        requires
            f <= 999_999_999,
    ;
    law_rounding_passes_no_double(f, 1_000_000_000, y);
    lemma_rounded_proper(f, 1_000_000_000);
    law_order_is_that_of_the_values(y, b);
    if nanos < secs * 1_000_000_000 {
        let m = (secs * 0x4000_0000 - 1) as nat;
        let z = Double::Finite { mantissa: m as u64, exponent: -30i16 };
        assert(units(z) == m * t);
        let u = units(b);
        assert(w * (t * 0x4000_0000) + u <= m * t && m * t < secs * (t * 0x4000_0000))
            by (nonlinear_arith)
            requires
                w + 1 <= secs,
                u <= 0x3FFF_FFFF * t,
                m == secs * 0x4000_0000 - 1,
                t >= 1,
        ;
        lemma_sum_passes_no_double(a, b, z);
        law_order_is_that_of_the_values(z, s);
        law_order_is_that_of_the_values(s, h);
    } else {
        assert(w * (t * 0x4000_0000) >= secs * (t * 0x4000_0000)) by (nonlinear_arith)
            requires
                w >= secs,
        ;
        lemma_sum_passes_no_double(a, b, h);
    }
}

/// Not being less is transitive.
pub proof fn law_order_is_transitive(a: Double, b: Double, c: Double)
    requires
        !b.under(a),
        !c.under(b),
    ensures
        !c.under(a),
{
    if a is Finite && b is Finite && c is Finite {
        double::lemma_den_positive(a);
        double::lemma_den_positive(b);
        double::lemma_den_positive(c);
        let (na, nb, nc, da, db, dc) = (a.num(), b.num(), c.num(), a.den(), b.den(), c.den());
        assert(nc * da >= na * dc) by (nonlinear_arith)
            requires
                nb * da >= na * db,
                nc * db >= nb * dc,
                da > 0,
                db > 0,
                dc > 0,
        ;
    }
}

/// So many units of the last place, written in decimal.
pub open spec fn places_text(t: nat, places: nat) -> Seq<char> {
    text::dec(t / big::ten(places)) + if places == 0 {
        Seq::empty()
    } else {
        seq!['.'] + text::pad_left(text::dec(t % big::ten(places)), '0', places)
    }
}

/// A number is shown as the decimal with so many places that is nearest to it.
pub proof fn law_shown_decimals_are_nearest(num: nat, den: nat, places: nat)
    requires
        den > 0,
    ensures
        exists|t: nat| #[trigger]
            places_text(t, places) == fixed::decimal(num, den, places) && 2 * double::gap(
                t * den,
                num * big::ten(places),
            ) <= den,
{
    let n = num * big::ten(places);
    let (q, r) = (n / den, n % den);
    let t = double::round_half_even(n, den);
    assert(n == q * den + r && r < den && (q + 1) * den == q * den + den) by (nonlinear_arith)
        requires
            q == n / den,
            r == n % den,
            den > 0,
    ;
    assert(2 * double::gap(t * den, n) <= den);
    assert(places_text(t, places) == fixed::decimal(num, den, places));
}

/// A signed number is shown with a minus in front of its size, and infinity and what is
/// not a number by their names.
pub proof fn law_signs_are_shown(size: Double, places: nat)
    ensures
        (Number::Signed { negative: true, size }).text(places) == seq!['-'] + (Number::Signed {
            negative: false,
            size,
        }).text(places),
        (Number::Signed { negative: false, size }).text(places) == size.text(places),
        Double::Infinite.text(places) == "inf"@,
        Number::Nan.text(places) == "NaN"@,
        size is Finite ==> size.text(places) == fixed::decimal(size.num(), size.den(), places),
{
}

} // verus!
