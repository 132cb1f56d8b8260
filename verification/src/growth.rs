//! Exact geometric growth: `base * (percent / 100)^steps`, rounded to the
//! nearest integer with halves away from zero.
//!
//! The value is held as an integer part and base-100 fractional digits, so a
//! step (multiply by `percent`, divide by 100) loses nothing and the rounding
//! is decided on the exact value.

use vstd::arithmetic::div_mod::*;
use vstd::arithmetic::power::*;
use vstd::prelude::*;

verus! {

/// The integer nearest to `num / den`, a half rounded away from zero, for
/// `num >= 0` and `den > 0`.
pub open spec fn round_half_up(num: int, den: int) -> int {
    (2 * num + den) / (2 * den)
}

/// `base * (percent / 100)^steps`, rounded to the nearest integer.
pub open spec fn grown(base: int, percent: int, steps: nat) -> int {
    round_half_up(base * pow(percent, steps), pow(100, steps))
}

/// The integer part of `base * (percent / 100)^steps`.
pub open spec fn whole_part(base: int, percent: int, steps: nat) -> int {
    base * pow(percent, steps) / pow(100, steps)
}

/// The number whose base-100 digits are `digits`, least significant first.
pub open spec fn digits_value(digits: Seq<u8>) -> int
    decreases digits.len(),
{
    if digits.len() == 0 {
        0
    } else {
        digits_value(digits.drop_last()) + digits.last() * pow(100, (digits.len() - 1) as nat)
    }
}

/// Every digit is below 100.
pub open spec fn digits_in_range(digits: Seq<u8>) -> bool {
    forall|i: int| 0 <= i < digits.len() ==> #[trigger] digits[i] < 100
}

/// A power with one more factor.
pub proof fn lemma_pow_succ(b: int, n: nat)
    ensures
        pow(b, n + 1) == b * pow(b, n),
{
    reveal(pow);
}

/// `round_half_up(num, den)` is the one integer `r` with
/// `2 * r * den <= 2 * num + den < 2 * (r + 1) * den`.
pub proof fn lemma_round_bounds(num: int, den: int)
    requires
        den > 0,
    ensures
        2 * round_half_up(num, den) * den <= 2 * num + den,
        2 * num + den < 2 * (round_half_up(num, den) + 1) * den,
{
    let x = 2 * num + den;
    let d = 2 * den;
    lemma_fundamental_div_mod(x, d);
    lemma_mod_bound(x, d);
    assert(2 * round_half_up(num, den) * den == d * (x / d)) by (nonlinear_arith)
        requires
            d == 2 * den,
            round_half_up(num, den) == x / d,
    ;
    assert(2 * (round_half_up(num, den) + 1) * den == d * (x / d) + d) by (nonlinear_arith)
        requires
            d == 2 * den,
            round_half_up(num, den) == x / d,
    ;
}

/// The converse of [`lemma_round_bounds`].
pub proof fn lemma_round_unique(num: int, den: int, r: int)
    requires
        den > 0,
        2 * r * den <= 2 * num + den,
        2 * num + den < 2 * (r + 1) * den,
    ensures
        round_half_up(num, den) == r,
{
    let x = 2 * num + den;
    let d = 2 * den;
    let rem = x - r * d;
    assert(0 <= rem < d && x == r * d + rem) by (nonlinear_arith)
        requires
            den > 0,
            2 * r * den <= 2 * num + den,
            2 * num + den < 2 * (r + 1) * den,
            x == 2 * num + den,
            d == 2 * den,
            rem == x - r * d,
    ;
    lemma_fundamental_div_mod_converse(x, d, r, rem);
}

/// An integer that lies at most a half above the value is reached by rounding.
pub proof fn lemma_round_reaches(num: int, den: int, low: int)
    requires
        den > 0,
        2 * low * den <= 2 * num + den,
    ensures
        low <= round_half_up(num, den),
{
    lemma_round_bounds(num, den);
    let r = round_half_up(num, den);
    assert(low <= r) by (nonlinear_arith)
        requires
            den > 0,
            2 * low * den <= 2 * num + den,
            2 * num + den < 2 * (r + 1) * den,
    {
        assert((2 * low) * den < (2 * (r + 1)) * den);
    }
}

/// Rounding never goes below an integer that the value has reached.
pub proof fn lemma_round_at_least(num: int, den: int, low: int)
    requires
        den > 0,
        low * den <= num,
    ensures
        low <= round_half_up(num, den),
{
    assert(2 * low * den <= 2 * num + den) by (nonlinear_arith)
        requires
            den > 0,
            low * den <= num,
    ;
    lemma_round_reaches(num, den, low);
}

/// Rounding is monotone in the value: if `n1 / d1 <= n2 / d2` then the first
/// rounds no higher than the second.
pub proof fn lemma_round_monotone(n1: int, d1: int, n2: int, d2: int)
    requires
        d1 > 0,
        d2 > 0,
        n1 * d2 <= n2 * d1,
    ensures
        round_half_up(n1, d1) <= round_half_up(n2, d2),
{
    lemma_round_bounds(n1, d1);
    lemma_round_bounds(n2, d2);
    let r1 = round_half_up(n1, d1);
    let r2 = round_half_up(n2, d2);
    // 2 r1 d1 d2 <= (2 n1 + d1) d2 <= (2 n2 + d2) d1 < 2 (r2 + 1) d1 d2
    assert(r1 < r2 + 1) by (nonlinear_arith)
        requires
            d1 > 0,
            d2 > 0,
            n1 * d2 <= n2 * d1,
            2 * r1 * d1 <= 2 * n1 + d1,
            2 * n2 + d2 < 2 * (r2 + 1) * d2,
    {
        assert((2 * r1 * d1) * d2 <= (2 * n1 + d1) * d2);
        assert((2 * n2 + d2) * d1 < (2 * (r2 + 1) * d2) * d1);
        assert((2 * n1 + d1) * d2 == 2 * (n1 * d2) + d1 * d2);
        assert((2 * n2 + d2) * d1 == 2 * (n2 * d1) + d1 * d2);
        assert((2 * r1 * d1) * d2 == (2 * r1) * (d1 * d2));
        assert((2 * (r2 + 1) * d2) * d1 == (2 * (r2 + 1)) * (d1 * d2));
        assert(d1 * d2 > 0);
        assert((2 * r1) * (d1 * d2) < (2 * (r2 + 1)) * (d1 * d2));
    }
}

/// With a multiplier of at least one, the rounded value never falls from one
/// step to the next.
pub proof fn lemma_grown_step(base: int, percent: int, steps: nat)
    requires
        base >= 0,
        percent >= 100,
    ensures
        grown(base, percent, steps) <= grown(base, percent, steps + 1),
{
    let p = pow(percent, steps);
    let h = pow(100, steps);
    lemma_pow_succ(percent, steps);
    lemma_pow_succ(100, steps);
    lemma_pow_positive(percent, steps);
    lemma_pow_positive(100, steps);
    lemma_pow_positive(100, steps + 1);
    assert((base * p) * (100 * h) <= (base * (percent * p)) * h) by (nonlinear_arith)
        requires
            base >= 0,
            percent >= 100,
            p > 0,
            h > 0,
    ;
    lemma_round_monotone(base * p, h, base * (percent * p), 100 * h);
}

/// With a multiplier of at least one, the rounded value is non-decreasing in
/// the number of steps.
pub proof fn lemma_grown_monotone(base: int, percent: int, from: nat, to: nat)
    requires
        base >= 0,
        percent >= 100,
        from <= to,
    ensures
        grown(base, percent, from) <= grown(base, percent, to),
    decreases to - from,
{
    if from < to {
        lemma_grown_monotone(base, percent, from, (to - 1) as nat);
        lemma_grown_step(base, percent, (to - 1) as nat);
    }
}

/// The rounded value is never negative.
pub proof fn lemma_grown_nonnegative(base: int, percent: int, steps: nat)
    requires
        base >= 0,
        percent >= 0,
    ensures
        grown(base, percent, steps) >= 0,
{
    lemma_pow_positive(100, steps);
    if percent > 0 {
        lemma_pow_positive(percent, steps);
    } else if steps > 0 {
        lemma0_pow(steps);
    } else {
        lemma_pow0(percent);
    }
    assert(0 * pow(100, steps) <= base * pow(percent, steps)) by (nonlinear_arith)
        requires
            base >= 0,
            pow(percent, steps) >= 0,
    ;
    lemma_round_at_least(base * pow(percent, steps), pow(100, steps), 0);
}

/// Appending a most significant digit adds that digit times its weight.
proof fn lemma_digits_push(digits: Seq<u8>, top: u8)
    ensures
        digits_value(digits.push(top)) == digits_value(digits) + top * pow(
            100,
            digits.len(),
        ),
{
    assert(digits.push(top).drop_last() =~= digits);
}

/// Digits below 100 stay below the weight of the next position.
proof fn lemma_digits_bound(digits: Seq<u8>)
    requires
        digits_in_range(digits),
    ensures
        0 <= digits_value(digits) < pow(100, digits.len()),
    decreases digits.len(),
{
    if digits.len() == 0 {
        lemma_pow0(100);
    } else {
        let rest = digits.drop_last();
        let n = (digits.len() - 1) as nat;
        assert(digits_in_range(rest)) by {
            assert forall|i: int| 0 <= i < rest.len() implies #[trigger] rest[i] < 100 by {
                assert(rest[i] == digits[i]);
            }
        }
        lemma_digits_bound(rest);
        lemma_pow_succ(100, n);
        assert(digits.last() < 100);
        assert(digits_value(rest) + digits.last() * pow(100, n) < 100 * pow(100, n))
            by (nonlinear_arith)
            requires
                0 <= digits_value(rest) < pow(100, n),
                0 <= digits.last() < 100,
        ;
        assert(digits.last() * pow(100, n) >= 0) by (nonlinear_arith)
            requires
                pow(100, n) > 0,
                digits.last() >= 0,
        ;
    }
}

/// An exact value `base * (percent / 100)^steps`: an integer part and one
/// base-100 fractional digit per step taken.
pub struct Growth {
    base: u64,
    percent: u32,
    whole: u64,
    frac: Vec<u8>,
}

impl Growth {
    /// The value before any step.
    pub closed spec fn base(&self) -> int {
        self.base as int
    }

    /// The number of steps taken so far.
    pub closed spec fn steps(&self) -> nat {
        self.frac@.len()
    }

    /// The multiplier, in hundredths.
    pub closed spec fn percent(&self) -> int {
        self.percent as int
    }

    /// The held value, scaled by `100^steps` to make it an integer.
    spec fn numerator(&self) -> int {
        self.whole * pow(100, self.frac@.len()) + digits_value(self.frac@)
    }

    /// Every fractional digit is below 100, and the held value is exactly
    /// `base * (percent / 100)^steps`.
    pub closed spec fn wf(&self) -> bool {
        &&& digits_in_range(self.frac@)
        &&& self.numerator() == self.base * pow(self.percent as int, self.frac@.len())
    }

    /// What the value rounds to: `grown(base, percent, steps)`.
    pub open spec fn nearest(&self) -> int {
        grown(self.base(), self.percent(), self.steps())
    }

    /// The value `base`, before any step.
    pub fn start(base: u64, percent: u32) -> (g: Growth)
        ensures
            g.wf(),
            g.base() == base,
            g.percent() == percent,
            g.steps() == 0,
    {
        proof {
            lemma_pow0(100);
            lemma_pow0(percent as int);
        }
        Growth { base, percent, whole: base, frac: Vec::new() }
    }

    /// The value rounded to the nearest integer, or `None` where that does
    /// not fit in a `u64`.
    pub fn rounded(&self) -> (r: Option<u64>)
        requires
            self.wf(),
        ensures
            0 <= self.nearest(),
            r == (if self.nearest() <= u64::MAX {
                Some(self.nearest() as u64)
            } else {
                None
            }),
    {
        let n = self.frac.len();
        let ghost den = pow(100, n as nat);
        let ghost fraction = digits_value(self.frac@);
        proof {
            lemma_pow_positive(100, n as nat);
            lemma_digits_bound(self.frac@);
        }
        let up = n > 0 && self.frac[n - 1] >= 50;
        proof {
            // twice the fraction reaches the denominator exactly when the top
            // digit is 50 or more
            if n > 0 {
                let rest = self.frac@.drop_last();
                let top = self.frac@.last();
                let w = pow(100, (n - 1) as nat);
                assert(digits_in_range(rest)) by {
                    assert forall|i: int| 0 <= i < rest.len() implies #[trigger] rest[i]
                        < 100 by {
                        assert(rest[i] == self.frac@[i]);
                    }
                }
                lemma_digits_bound(rest);
                lemma_pow_succ(100, (n - 1) as nat);
                assert(den == 100 * w);
                assert(fraction == digits_value(rest) + top * w);
                assert((top >= 50) <==> (2 * fraction >= den)) by (nonlinear_arith)
                    requires
                        den == 100 * w,
                        fraction == digits_value(rest) + top * w,
                        0 <= digits_value(rest) < w,
                        0 <= top < 100,
                ;
            }
            let r: int = if up {
                self.whole + 1
            } else {
                self.whole as int
            };
            let num = self.whole * den + fraction;
            assert(2 * r * den <= 2 * num + den && 2 * num + den < 2 * (r + 1) * den)
                by (nonlinear_arith)
                requires
                    den > 0,
                    0 <= fraction < den,
                    num == self.whole * den + fraction,
                    up <==> 2 * fraction >= den,
                    r == (if up {
                        self.whole + 1
                    } else {
                        self.whole as int
                    }),
            ;
            lemma_round_unique(num, den, r);
        }
        if up {
            self.whole.checked_add(1)
        } else {
            Some(self.whole)
        }
    }

    /// Multiplies the value by `percent / 100`. Gives `None` exactly where
    /// the integer part of the product does not fit in a `u64`.
    pub fn step(self) -> (next: Option<Growth>)
        requires
            self.wf(),
        ensures
            next is Some <==> whole_part(self.base(), self.percent(), self.steps() + 1)
                <= u64::MAX,
            match next {
                Some(g) => {
                    &&& g.wf()
                    &&& g.base() == self.base()
                    &&& g.percent() == self.percent()
                    &&& g.steps() == self.steps() + 1
                },
                None => grown(self.base(), self.percent(), self.steps() + 1) > u64::MAX,
            },
    {
        let base = self.base;
        let percent = self.percent as u64;
        let whole = self.whole;
        let mut frac = self.frac;
        let ghost before = frac@;
        let n = frac.len();
        let mut carry: u64 = 0;
        let mut i: usize = 0;
        proof {
            lemma_pow0(100);
            assert(frac@.subrange(0, 0) =~= Seq::<u8>::empty());
            assert(before.subrange(0, 0) =~= Seq::<u8>::empty());
        }
        while i < n
            invariant
                i <= n,
                n == frac@.len(),
                n == before.len(),
                percent <= u32::MAX,
                carry <= percent,
                digits_in_range(before),
                digits_in_range(frac@),
                forall|j: int| i <= j < n ==> frac@[j] == before[j],
                digits_value(frac@.subrange(0, i as int)) + carry * pow(100, i as nat) == percent
                    * digits_value(before.subrange(0, i as int)),
            decreases n - i,
        {
            let digit = frac[i];
            assert(digit * percent <= 99 * percent <= 99 * u32::MAX) by (nonlinear_arith)
                requires
                    digit < 100,
                    percent <= u32::MAX,
            ;
            let t: u64 = digit as u64 * percent + carry;
            assert(t / 100 <= percent) by (nonlinear_arith)
                requires
                    t == digit * percent + carry,
                    digit < 100,
                    carry <= percent,
            ;
            let low = (t % 100) as u8;
            let high = t / 100;
            let ghost prev = frac@;
            frac.set(i, low);
            proof {
                let w = pow(100, i as nat);
                lemma_pow_succ(100, i as nat);
                assert(frac@.subrange(0, i + 1).drop_last() =~= prev.subrange(0, i as int));
                assert(before.subrange(0, i + 1).drop_last() =~= before.subrange(0, i as int));
                assert(frac@.subrange(0, i + 1).last() == low);
                assert(before.subrange(0, i + 1).last() == digit);
                let a = digits_value(prev.subrange(0, i as int));
                let b = digits_value(before.subrange(0, i as int));
                assert(a + low * w + high * (100 * w) == percent * (b + digit * w))
                    by (nonlinear_arith)
                    requires
                        a + carry * w == percent * b,
                        t == digit * percent + carry,
                        low == t % 100,
                        high == t / 100,
                        t == 100 * (t / 100) + t % 100,
                ;
                assert forall|j: int| 0 <= j < frac@.len() implies #[trigger] frac@[j] < 100 by {
                    if j != i {
                        assert(frac@[j] == prev[j]);
                    }
                }
            }
            carry = high;
            i += 1;
        }
        proof {
            assert(frac@.subrange(0, n as int) =~= frac@);
            assert(before.subrange(0, n as int) =~= before);
        }
        assert(whole * percent <= u64::MAX * u32::MAX) by (nonlinear_arith)
            requires
                percent <= u32::MAX,
        ;
        let product: u128 = whole as u128 * percent as u128 + carry as u128;
        let top = (product % 100) as u8;
        let rest = product / 100;
        let ghost w = pow(100, n as nat);
        proof {
            lemma_pow_succ(100, n as nat);
            lemma_pow_succ(self.percent(), n as nat);
            lemma_pow_positive(100, n as nat);
            lemma_digits_bound(frac@);
            lemma_digits_push(frac@, top);
            // the scaled value after the step, split at the new digit
            assert(rest * (100 * w) + (digits_value(frac@) + top * w) == percent * (whole * w
                + digits_value(before))) by (nonlinear_arith)
                requires
                    digits_value(frac@) + carry * w == percent * digits_value(before),
                    product == whole * percent + carry,
                    top == product % 100,
                    rest == product / 100,
                    product == 100 * (product / 100) + product % 100,
            ;
            assert(percent * (base * pow(self.percent(), n as nat)) == base * (percent * pow(
                self.percent(),
                n as nat,
            ))) by (nonlinear_arith);
            // the integer part of the product is `rest`
            let fraction = digits_value(frac@) + top * w;
            assert(0 <= fraction < 100 * w) by (nonlinear_arith)
                requires
                    fraction == digits_value(frac@) + top * w,
                    0 <= digits_value(frac@) < w,
                    0 <= top < 100,
            ;
            lemma_fundamental_div_mod_converse(
                base * pow(percent as int, (n + 1) as nat),
                100 * w,
                rest as int,
                fraction,
            );
        }
        if rest > u64::MAX as u128 {
            proof {
                assert(rest * (100 * w) + (digits_value(frac@) + top * w) >= (u64::MAX + 1) * (100
                    * w)) by (nonlinear_arith)
                    requires
                        rest > u64::MAX,
                        w > 0,
                        digits_value(frac@) >= 0,
                        top >= 0,
                ;
                lemma_pow_positive(100, (n + 1) as nat);
                lemma_round_at_least(
                    base * pow(percent as int, (n + 1) as nat),
                    pow(100, (n + 1) as nat),
                    u64::MAX + 1,
                );
            }
            return None;
        }
        frac.push(top);
        Some(Growth { base, percent: self.percent, whole: rest as u64, frac })
    }
}

} // verus!
