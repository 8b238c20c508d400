//! Natural numbers of any size.
use vstd::prelude::*;

use crate::text;

verus! {

/// What the digits count up to.
pub const BASE: u64 = 0x1_0000_0000;

/// The weight of digit `n`.
pub open spec fn weight(n: nat) -> nat
    decreases n,
{
    if n == 0 {
        1
    } else {
        BASE as nat * weight((n - 1) as nat)
    }
}

/// The number that digits stand for, the lowest first.
pub open spec fn number(digits: Seq<u32>) -> nat
    decreases digits.len(),
{
    if digits.len() == 0 {
        0
    } else {
        number(digits.drop_last()) + digits.last() as nat * weight((digits.len() - 1) as nat)
    }
}

/// Two to the power of `n`.
pub open spec fn two(n: nat) -> nat
    decreases n,
{
    if n == 0 {
        1
    } else {
        2 * two((n - 1) as nat)
    }
}

/// Ten to the power of `n`.
pub open spec fn ten(n: nat) -> nat
    decreases n,
{
    if n == 0 {
        1
    } else {
        10 * ten((n - 1) as nat)
    }
}

/// A natural number.
pub struct Big {
    /// The digits, the lowest first; the highest may be zero.
    pub digits: Vec<u32>,
}

impl View for Big {
    type V = nat;

    open spec fn view(&self) -> nat {
        number(self.digits@)
    }
}

proof fn lemma_push(digits: Seq<u32>, d: u32)
    ensures
        number(digits.push(d)) == number(digits) + d as nat * weight(digits.len()),
{
    assert(digits.push(d).drop_last() == digits);
}

proof fn lemma_take(digits: Seq<u32>, i: int)
    requires
        0 <= i < digits.len(),
    ensures
        number(digits.take(i + 1)) == number(digits.take(i)) + digits[i] as nat * weight(i as nat),
{
    assert(digits.take(i + 1) == digits.take(i).push(digits[i]));
    lemma_push(digits.take(i), digits[i]);
}

/// A number is less than the weight of the digit that it does not have.
proof fn lemma_bound(digits: Seq<u32>)
    ensures
        number(digits) < weight(digits.len()),
    decreases digits.len(),
{
    if digits.len() > 0 {
        let n = (digits.len() - 1) as nat;
        lemma_bound(digits.drop_last());
        let d = digits.last() as nat;
        let w = weight(n);
        assert(d * w + w <= BASE as nat * w) by (nonlinear_arith)
            requires
                d + 1 <= BASE,
        ;
    }
}

/// The lowest digit, and the others once more.
proof fn lemma_front(digits: Seq<u32>)
    requires
        digits.len() > 0,
    ensures
        number(digits) == digits[0] as nat + BASE as nat * number(digits.skip(1)),
    decreases digits.len(),
{
    let n = (digits.len() - 1) as nat;
    let d = digits.last() as nat;
    if n == 0 {
        assert(digits.drop_last() == Seq::<u32>::empty());
        assert(digits.skip(1) == Seq::<u32>::empty());
        assert(d * 1 == d) by (nonlinear_arith);
    } else {
        lemma_front(digits.drop_last());
        assert(digits.drop_last().skip(1) == digits.skip(1).drop_last());
        let (h, w) = (number(digits.skip(1).drop_last()), weight((n - 1) as nat));
        assert(BASE as nat * (h + d * w) == BASE as nat * h + d * (BASE as nat * w))
            by (nonlinear_arith);
    }
}

/// Powers of two multiply by adding.
pub proof fn lemma_two_adds(a: nat, b: nat)
    ensures
        two(a + b) == two(a) * two(b),
    decreases b,
{
    if b > 0 {
        let c = (b - 1) as nat;
        lemma_two_adds(a, c);
        let (p, q) = (two(a), two(c));
        assert(2 * (p * q) == p * (2 * q)) by (nonlinear_arith);
    } else {
        assert(two(a) * 1 == two(a)) by (nonlinear_arith);
    }
}

impl Big {
    pub fn zero() -> (r: Big)
        ensures
            r@ == 0,
    {
        Big { digits: Vec::new() }
    }

    pub fn copy(&self) -> (r: Big)
        ensures
            r@ == self@,
    {
        self.times(1, 0)
    }

    /// The number times a small one, and a small one more.
    pub fn times(&self, factor: u32, more: u32) -> (r: Big)
        ensures
            r@ == self@ * factor + more,
    {
        let mut out: Vec<u32> = Vec::new();
        let mut carry: u64 = more as u64;
        let mut i: usize = 0;
        assert(self.digits@.take(0) == Seq::<u32>::empty());
        assert(0 * factor as nat == 0) by (nonlinear_arith);
        assert(carry as nat * 1 == carry) by (nonlinear_arith);
        while i < self.digits.len()
            invariant
                i <= self.digits@.len(),
                out@.len() == i,
                carry < BASE,
                number(out@) + carry as nat * weight(i as nat) == number(self.digits@.take(i as int))
                    * factor + more,
            decreases self.digits@.len() - i,
        {
            let d = self.digits[i];
            assert(d * factor <= 0xFFFF_FFFF * 0xFFFF_FFFF) by (nonlinear_arith)
                requires
                    d <= 0xFFFF_FFFF,
                    factor <= 0xFFFF_FFFF,
            ;
            let x: u64 = d as u64 * factor as u64 + carry;
            let low: u32 = (x % BASE) as u32;
            let high: u64 = x / BASE;
            proof {
                let w = weight(i as nat);
                let before = number(self.digits@.take(i as int));
                lemma_push(out@, low);
                lemma_take(self.digits@, i as int);
                assert(low as nat * w + high as nat * (BASE as nat * w) == carry as nat * w + (d as nat
                    * w) * factor) by (nonlinear_arith)
                    requires
                        low + high * BASE == d * factor + carry,
                ;
                assert((before + d as nat * w) * factor == before * factor + (d as nat * w) * factor)
                    by (nonlinear_arith);
                assert(high < BASE) by (nonlinear_arith)
                    requires
                        high * BASE <= d * factor + carry,
                        d < BASE,
                        factor < BASE,
                        carry < BASE,
                        BASE == 0x1_0000_0000,
                ;
            }
            out.push(low);
            carry = high;
            i = i + 1;
        }
        assert(self.digits@.take(i as int) == self.digits@);
        proof {
            lemma_push(out@, carry as u32);
        }
        out.push(carry as u32);
        Big { digits: out }
    }

    /// Digit `i`, which is zero where there is none.
    fn digit(&self, i: usize) -> (d: u32)
        ensures
            d == padded(self.digits@, i as int),
    {
        if i < self.digits.len() {
            self.digits[i]
        } else {
            0
        }
    }

    pub fn plus(&self, other: &Big) -> (r: Big)
        ensures
            r@ == self@ + other@,
    {
        let n: usize = if self.digits.len() >= other.digits.len() {
            self.digits.len()
        } else {
            other.digits.len()
        };
        let mut out: Vec<u32> = Vec::new();
        let mut carry: u64 = 0;
        let mut i: usize = 0;
        while i < n
            invariant
                i <= n,
                out@.len() == i,
                carry <= 1,
                number(out@) + carry as nat * weight(i as nat) == low_part(self.digits@, i as nat)
                    + low_part(other.digits@, i as nat),
            decreases n - i,
        {
            let a = self.digit(i);
            let b = other.digit(i);
            let x: u64 = a as u64 + b as u64 + carry;
            let low: u32 = (x % BASE) as u32;
            let high: u64 = x / BASE;
            proof {
                let w = weight(i as nat);
                lemma_push(out@, low);
                assert(low as nat * w + high as nat * (BASE as nat * w) == carry as nat * w + a as nat
                    * w + b as nat * w) by (nonlinear_arith)
                    requires
                        low + high * BASE == a + b + carry,
                ;
            }
            out.push(low);
            carry = high;
            i = i + 1;
        }
        proof {
            lemma_low_part(self.digits@, n as nat);
            lemma_low_part(other.digits@, n as nat);
            lemma_push(out@, carry as u32);
        }
        out.push(carry as u32);
        Big { digits: out }
    }

    /// What is left of the number without the other, unless the other is larger.
    pub fn minus(&self, other: &Big) -> (r: Option<Big>)
        ensures
            match r {
                Some(d) => self@ >= other@ && d@ == self@ - other@,
                None => self@ < other@,
            },
    {
        let n: usize = if self.digits.len() >= other.digits.len() {
            self.digits.len()
        } else {
            other.digits.len()
        };
        let mut out: Vec<u32> = Vec::new();
        let mut borrow: u64 = 0;
        let mut i: usize = 0;
        while i < n
            invariant
                i <= n,
                out@.len() == i,
                borrow <= 1,
                number(out@) + low_part(other.digits@, i as nat) == low_part(
                    self.digits@,
                    i as nat,
                ) + borrow as nat * weight(i as nat),
            decreases n - i,
        {
            let a = self.digit(i);
            let b = other.digit(i);
            let take: u64 = b as u64 + borrow;
            let next: u64 = if a as u64 >= take {
                0
            } else {
                1
            };
            let low: u32 = (a as u64 + next * BASE - take) as u32;
            proof {
                let w = weight(i as nat);
                lemma_push(out@, low);
                assert(low as nat * w + b as nat * w + borrow as nat * w == a as nat * w + next as nat
                    * (BASE as nat * w)) by (nonlinear_arith)
                    requires
                        low + b + borrow == a + next * BASE,
                ;
            }
            out.push(low);
            borrow = next;
            i = i + 1;
        }
        proof {
            lemma_low_part(self.digits@, n as nat);
            lemma_low_part(other.digits@, n as nat);
            lemma_bound(out@);
        }
        if borrow == 0 {
            Some(Big { digits: out })
        } else {
            assert(1 * weight(n as nat) == weight(n as nat)) by (nonlinear_arith);
            None
        }
    }

    /// The number doubled `n` times.
    pub fn doubled(&self, n: u32) -> (r: Big)
        ensures
            r@ == self@ * two(n as nat),
    {
        let mut r = self.copy();
        let mut i: u32 = 0;
        assert(self@ * 1 == self@) by (nonlinear_arith);
        while n - i >= 31
            invariant
                i <= n,
                r@ == self@ * two(i as nat),
            decreases n - i,
        {
            proof {
                lemma_two_adds(i as nat, 31);
                reveal_with_fuel(two, 32);
                let (a, t) = (self@, two(i as nat));
                assert((a * t) * 0x8000_0000 == a * (t * 0x8000_0000)) by (nonlinear_arith);
            }
            r = r.times(0x8000_0000, 0);
            i = i + 31;
        }
        while i < n
            invariant
                i <= n,
                r@ == self@ * two(i as nat),
            decreases n - i,
        {
            proof {
                let (a, t) = (self@, two(i as nat));
                assert((a * t) * 2 == a * (2 * t)) by (nonlinear_arith);
            }
            r = r.times(2, 0);
            i = i + 1;
        }
        r
    }

    /// The number times ten, `n` times.
    pub fn times_ten(&self, n: u128) -> (r: Big)
        ensures
            r@ == self@ * ten(n as nat),
    {
        let mut r = self.copy();
        let mut i: u128 = 0;
        assert(self@ * 1 == self@) by (nonlinear_arith);
        while i < n
            invariant
                i <= n,
                r@ == self@ * ten(i as nat),
            decreases n - i,
        {
            proof {
                let (a, t) = (self@, ten(i as nat));
                assert((a * t) * 10 == a * (10 * t)) by (nonlinear_arith);
            }
            r = r.times(10, 0);
            i = i + 1;
        }
        r
    }

    /// The number divided by a small one, and the remainder.
    pub fn divided(&self, by: u32) -> (r: (Big, u32))
        requires
            by > 0,
        ensures
            r.0@ == self@ / by as nat,
            r.1 == self@ % by as nat,
    {
        let mut out: Vec<u32> = Vec::new();
        let mut i: usize = 0;
        while i < self.digits.len()
            invariant
                i <= self.digits@.len(),
                out@.len() == i,
            decreases self.digits@.len() - i,
        {
            out.push(0);
            i = i + 1;
        }
        let mut rest: u32 = 0;
        assert(self.digits@.skip(i as int) == Seq::<u32>::empty());
        assert(out@.skip(i as int) == Seq::<u32>::empty());
        assert(0 * by as nat == 0) by (nonlinear_arith);
        while i > 0
            invariant
                i <= self.digits@.len(),
                out@.len() == self.digits@.len(),
                rest < by,
                number(out@.skip(i as int)) * by + rest == number(self.digits@.skip(i as int)),
            decreases i,
        {
            let ghost before = out@;
            let d = self.digits[i - 1];
            let x: u64 = rest as u64 * BASE + d as u64;
            let q: u64 = x / by as u64;
            let left: u64 = x % by as u64;
            proof {
                assert(q < BASE) by (nonlinear_arith)
                    requires
                        q == x / by as u64,
                        x < by * BASE,
                        by > 0,
                ;
                assert(x == q * by + left) by (nonlinear_arith)
                    requires
                        q == x / by as u64,
                        left == x % by as u64,
                        by > 0,
                ;
            }
            out.set(i - 1, q as u32);
            proof {
                assert(out@.skip(i as int) == before.skip(i as int));
                assert(out@.skip(i - 1).skip(1) == out@.skip(i as int));
                assert(self.digits@.skip(i - 1).skip(1) == self.digits@.skip(i as int));
                lemma_front(out@.skip(i - 1));
                lemma_front(self.digits@.skip(i - 1));
                let h = number(before.skip(i as int));
                assert((q as nat + BASE as nat * h) * by + left == d as nat + BASE as nat * (h * by
                    + rest)) by (nonlinear_arith)
                    requires
                        rest * BASE + d == q * by + left,
                ;
            }
            rest = left as u32;
            i = i - 1;
        }
        proof {
            assert(out@.skip(0) == out@);
            assert(self.digits@.skip(0) == self.digits@);
            vstd::arithmetic::div_mod::lemma_fundamental_div_mod_converse(
                self@ as int,
                by as int,
                number(out@) as int,
                rest as int,
            );
        }
        (Big { digits: out }, rest)
    }

    /// Appends the number in decimal.
    pub fn push_decimal(&self, out: &mut String)
        ensures
            final(out)@ == old(out)@ + text::dec(self@),
        decreases self@,
    {
        let (tenth, last) = self.divided(10);
        if self.minus(&Big::from_u64(10)).is_some() {
            tenth.push_decimal(out);
        }
        out.push(text::digit_of(last as u8));
        assert(out@ =~= old(out)@ + text::dec(self@));
    }

    pub fn from_u64(n: u64) -> (r: Big)
        ensures
            r@ == n,
    {
        let high: u32 = (n / BASE) as u32;
        let low: u32 = (n % BASE) as u32;
        let mut digits: Vec<u32> = Vec::new();
        proof {
            lemma_push(Seq::empty(), low);
            lemma_push(Seq::empty().push(low), high);
            reveal_with_fuel(weight, 2);
            assert(low as nat * 1 == low) by (nonlinear_arith);
            assert(high as nat * (BASE as nat * 1) == high as nat * BASE as nat) by (nonlinear_arith);
        }
        digits.push(low);
        digits.push(high);
        Big { digits }
    }
}

/// Digit `i`, which is zero where there is none.
pub open spec fn padded(digits: Seq<u32>, i: int) -> u32 {
    if 0 <= i < digits.len() {
        digits[i]
    } else {
        0
    }
}

/// The number of the lowest `n` digits.
spec fn low_part(digits: Seq<u32>, n: nat) -> nat
    decreases n,
{
    if n == 0 {
        0
    } else {
        low_part(digits, (n - 1) as nat) + padded(digits, n - 1) as nat * weight((n - 1) as nat)
    }
}

proof fn lemma_low_part(digits: Seq<u32>, n: nat)
    ensures
        n <= digits.len() ==> low_part(digits, n) == number(digits.take(n as int)),
        n >= digits.len() ==> low_part(digits, n) == number(digits),
    decreases n,
{
    if n > 0 {
        let m = (n - 1) as nat;
        lemma_low_part(digits, m);
        if n <= digits.len() {
            lemma_take(digits, m as int);
        } else {
            assert(0 * weight(m) == 0) by (nonlinear_arith);
        }
        assert(digits.take(digits.len() as int) == digits);
    } else {
        assert(digits.take(0) == Seq::<u32>::empty());
        if digits.len() == 0 {
            assert(digits == Seq::<u32>::empty());
        }
    }
}

} // verus!
