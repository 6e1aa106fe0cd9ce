//! Division by a fixed divisor with a precomputed multiplier and two shifts.
//!
//! A [`Divider`] over `W` works in a domain of half-width `W / 2` bits: the
//! divisor and every dividend lie below `2^(W/2)`, so that the product of a
//! dividend and the multiplier never needs more than `W` bits. The wide
//! integer that carries the values has `W` digits, which is room to spare.

use vstd::prelude::*;
use vstd::arithmetic::div_mod::{
    lemma_div_nonincreasing,
    lemma_div_pos_is_pos,
    lemma_fundamental_div_mod,
    lemma_mod_bound,
    lemma_small_mod,
};
use vstd::arithmetic::power2::{
    lemma_pow2,
    lemma_pow2_adds,
    lemma_pow2_pos,
    lemma_pow2_strictly_increases,
    pow2,
};
use crate::reciprocal::{
    lemma_ceil_log2_unique,
    lemma_exponent_in_range,
    lemma_multiply_shift_exact,
    lemma_pow2_monotone,
    lemma_raw_multiplier_fits,
    multiplier_of,
    multiply_shift,
    post_shift_of,
    pre_shift_of,
    raw_multiplier,
};
use crate::wide::WideUint;

verus! {

/// Why a divider could not be made.
#[derive(Clone, Copy, Debug, PartialEq, Eq)]
pub enum DividerError {
    /// The divisor is zero.
    ZeroDivisor,
}

/// The numbers that a divider holds: its divisor, and the multiplier and the
/// two shifts derived from it.
pub struct Parameters {
    pub divisor: nat,
    pub multiplier: nat,
    pub sh1: nat,
    pub sh2: nat,
}

/// The parameters that belong to divisor `d` in a domain of half-width `h`.
pub open spec fn parameters_of(h: nat, d: nat) -> Parameters {
    Parameters {
        divisor: d,
        multiplier: multiplier_of(h, d),
        sh1: pre_shift_of(d),
        sh2: post_shift_of(d),
    }
}

/// A fixed divisor with the multiplier and shifts that replace division by it.
#[derive(Debug)]
pub struct Divider<const W: usize> {
    divisor: WideUint<W>,
    multiplier: WideUint<W>,
    sh1: u32,
    sh2: u32,
}

impl<const W: usize> View for Divider<W> {
    type V = Parameters;

    closed spec fn view(&self) -> Parameters {
        Parameters {
            divisor: self.divisor@,
            multiplier: self.multiplier@,
            sh1: self.sh1 as nat,
            sh2: self.sh2 as nat,
        }
    }
}

impl<const W: usize> Divider<W> {
    /// The half-width of the domain in bits.
    pub open spec fn half_width() -> nat {
        (W / 2) as nat
    }

    /// Whether a number lies in the domain: below `2^(W/2)`.
    pub open spec fn in_domain(n: nat) -> bool {
        n < pow2(Self::half_width())
    }

    /// A divider is well formed when its divisor is a nonzero number of the
    /// domain and its multiplier and shifts are the ones derived from it.
    pub open spec fn wf(&self) -> bool {
        &&& WideUint::<W>::width_ok()
        &&& 0 < self@.divisor
        &&& Self::in_domain(self@.divisor)
        &&& self@ == parameters_of(Self::half_width(), self@.divisor)
    }

    /// The quotient that the multiply-and-shift evaluation yields for `n`.
    pub open spec fn spec_divide(&self, n: nat) -> nat {
        multiply_shift(n, self@.multiplier, self@.sh1, self@.sh2, Self::half_width())
    }

    /// The remainder derived from that quotient.
    pub open spec fn spec_remainder(&self, n: nat) -> int {
        n - self@.divisor * self.spec_divide(n)
    }

    /// Derives the multiplier and the shifts for `divisor`.
    ///
    /// Fails exactly on a zero divisor.
    pub fn new(divisor: WideUint<W>) -> (r: Result<Self, DividerError>)
        requires
            WideUint::<W>::width_ok(),
            Self::in_domain(divisor@),
        ensures
            divisor@ == 0 ==> r is Err && r->Err_0 == DividerError::ZeroDivisor,
            divisor@ != 0 ==> r is Ok && r->Ok_0.wf() && r->Ok_0@.divisor == divisor@,
    {
        let zero = WideUint::<W>::from_u64(0);
        if !zero.less_than(&divisor) {
            return Err(DividerError::ZeroDivisor);
        }
        let one = WideUint::<W>::from_u64(1);
        let two = WideUint::<W>::from_u64(2);
        let half_bits: u32 = (W / 2) as u32;
        let ghost h = Self::half_width();
        let ghost d = divisor@;
        proof {
            lemma_pow2_strictly_increases(h, WideUint::<W>::bits());
            lemma_exponent_in_range(h, d);
            lemma_raw_multiplier_fits(h, d);
            lemma_pow2_adds(h, h);
            lemma_pow2_monotone(h + h, WideUint::<W>::bits());
            lemma_pow2_pos(h);
        }

        let initial_l: u32 = divisor.ilog(&two);
        proof {
            lemma_pow2(initial_l as nat);
            lemma_pow2((initial_l + 1) as nat);
            if initial_l >= h {
                lemma_pow2_monotone(h, initial_l as nat);
            }
            lemma_pow2_monotone(initial_l as nat, h);
            lemma_small_mod(pow2(initial_l as nat), pow2(WideUint::<W>::bits()));
            assert(1 * pow2(initial_l as nat) == pow2(initial_l as nat));
        }
        let l: u32 = if one.shl(initial_l).less_than(&divisor) {
            initial_l + 1
        } else {
            initial_l
        };
        proof {
            if l > 0 && l == initial_l {
                lemma_pow2_strictly_increases((l - 1) as nat, l as nat);
            }
            lemma_ceil_log2_unique(d, l as nat);
            lemma_small_mod(pow2(l as nat), pow2(WideUint::<W>::bits()));
            assert(1 * pow2(l as nat) == pow2(l as nat));
            lemma_small_mod(pow2(h), pow2(WideUint::<W>::bits()));
            assert(1 * pow2(h) == pow2(h));
        }

        let two_to_the_l = one.shl(l);
        let two_to_the_l_minus_divisor = two_to_the_l.minus(&divisor);

        let half_of_range = one.shl(half_bits);
        let scaled = half_of_range.times(&two_to_the_l_minus_divisor);
        let raw = scaled.divided_by(&divisor).plus_digit(1);
        proof {
            lemma_small_mod(raw_multiplier(h, d), pow2(WideUint::<W>::bits()));
        }

        let multiplier = raw.low_bits(half_bits);

        let sh1: u32 = if l < 1 { l } else { 1 };
        let sh2: u32 = if l == 0 { 0 } else { l - 1 };

        Ok(Divider { divisor, multiplier, sh1, sh2 })
    }

    /// Whether `value` lies in the domain, that is, whether it may serve as a
    /// divisor or a dividend.
    pub fn fits(value: &WideUint<W>) -> (b: bool)
        requires
            WideUint::<W>::width_ok(),
        ensures
            b == Self::in_domain(value@),
    {
        let half_bits: u32 = (W / 2) as u32;
        proof {
            let h = Self::half_width();
            lemma_pow2_strictly_increases(h, WideUint::<W>::bits());
            lemma_small_mod(pow2(h), pow2(WideUint::<W>::bits()));
            assert(1 * pow2(h) == pow2(h));
        }
        let limit = WideUint::<W>::from_u64(1).shl(half_bits);
        value.less_than(&limit)
    }

    /// The quotient of `dividend` by the divisor, rounded down.
    pub fn divide(&self, dividend: WideUint<W>) -> (q: WideUint<W>)
        requires
            self.wf(),
            Self::in_domain(dividend@),
        ensures
            q@ == dividend@ / self@.divisor,
            q@ == self.spec_divide(dividend@),
    {
        let half_bits: u32 = (W / 2) as u32;
        let ghost h = Self::half_width();
        let ghost n = dividend@;
        let ghost t = (n * self@.multiplier) / pow2(h);
        proof {
            lemma_multiply_shift_exact(h, self@.divisor, n);
            lemma_exponent_in_range(h, self@.divisor);
            lemma_pow2_adds(h, h);
            lemma_pow2_monotone(h + h, WideUint::<W>::bits());
            lemma_pow2_strictly_increases(h, WideUint::<W>::bits());
            lemma_pow2_pos(self@.sh1);
            lemma_div_nonincreasing(n - t, pow2(self@.sh1) as int);
            lemma_div_pos_is_pos(n - t, pow2(self@.sh1) as int);
        }
        let prod = dividend.times(&self.multiplier);
        let prod_upper_half = prod.shr(half_bits);
        let correction = dividend.minus(&prod_upper_half).shr(self.sh1);
        let quot = prod_upper_half.plus(&correction).shr(self.sh2);
        quot
    }

    /// The remainder of `dividend` by the divisor.
    pub fn remainder(&self, dividend: WideUint<W>) -> (r: WideUint<W>)
        requires
            self.wf(),
            Self::in_domain(dividend@),
        ensures
            r@ == dividend@ % self@.divisor,
            r@ == self.spec_remainder(dividend@),
    {
        let quotient = self.divide(dividend);
        proof {
            let h = Self::half_width();
            lemma_fundamental_div_mod(dividend@ as int, self@.divisor as int);
            lemma_mod_bound(dividend@ as int, self@.divisor as int);
            lemma_pow2_strictly_increases(h, WideUint::<W>::bits());
        }
        dividend.minus(&self.divisor.times(&quotient))
    }

    /// The ranges of the parameters: the divisor is nonzero, divisor and
    /// multiplier lie in the domain, the first shift is zero or one, and the
    /// second shift is below the half-width.
    pub proof fn lemma_parameters_in_range(self)
        requires
            self.wf(),
        ensures
            0 < self@.divisor < pow2(Self::half_width()),
            0 < self@.multiplier < pow2(Self::half_width()),
            self@.sh1 <= 1,
            self@.sh2 < Self::half_width(),
    {
        lemma_raw_multiplier_fits(Self::half_width(), self@.divisor);
        lemma_exponent_in_range(Self::half_width(), self@.divisor);
        assert(pow2(0) == 1) by {
            vstd::arithmetic::power2::lemma2_to64();
        }
    }

    /// Exactness: for every dividend of the domain, the multiply-and-shift
    /// quotient is the true quotient rounded down, and the remainder derived
    /// from it is the true remainder.
    pub proof fn lemma_exact(self, n: nat)
        requires
            self.wf(),
            Self::in_domain(n),
        ensures
            self.spec_divide(n) == n / self@.divisor,
            self.spec_remainder(n) == n % self@.divisor,
    {
        lemma_multiply_shift_exact(Self::half_width(), self@.divisor, n);
        lemma_fundamental_div_mod(n as int, self@.divisor as int);
    }

    /// The division identity: the divisor times the quotient, plus the
    /// remainder, is the dividend, and the remainder is smaller than the
    /// divisor.
    pub proof fn lemma_division_identity(self, n: nat)
        requires
            self.wf(),
            Self::in_domain(n),
        ensures
            self@.divisor * self.spec_divide(n) + self.spec_remainder(n) == n,
            0 <= self.spec_remainder(n) < self@.divisor,
    {
        self.lemma_exact(n);
        lemma_mod_bound(n as int, self@.divisor as int);
    }

    /// The fast path of a power of two: for the divisor `2^k` the multiplier
    /// is one, the first shift is `min(k, 1)`, the second is `max(k - 1, 0)`,
    /// and the quotient is the dividend shifted right by `k` bits.
    pub proof fn lemma_power_of_two(self, k: nat, n: nat)
        requires
            self.wf(),
            self@.divisor == pow2(k),
            Self::in_domain(n),
        ensures
            self@.multiplier == 1,
            self@.sh1 == (if k == 0 { 0nat } else { 1nat }),
            self@.sh2 == (if k == 0 { 0nat } else { (k - 1) as nat }),
            self.spec_divide(n) == n / pow2(k),
    {
        let h = Self::half_width();
        if k > 0 {
            lemma_pow2_strictly_increases((k - 1) as nat, k);
        }
        lemma_ceil_log2_unique(pow2(k), k);
        lemma_raw_multiplier_fits(h, pow2(k));
        assert(pow2(h) * (pow2(k) - pow2(k)) == 0) by (nonlinear_arith);
        self.lemma_exact(n);
    }

    /// Division by one: the quotient is the dividend and the remainder is
    /// zero.
    pub proof fn lemma_divisor_one(self, n: nat)
        requires
            self.wf(),
            self@.divisor == 1,
            Self::in_domain(n),
        ensures
            self.spec_divide(n) == n,
            self.spec_remainder(n) == 0,
    {
        self.lemma_exact(n);
    }

    /// The divisor.
    pub fn divisor(&self) -> (r: WideUint<W>)
        ensures
            r@ == self@.divisor,
    {
        self.divisor
    }

    /// The multiplier: the reciprocal of the divisor, scaled to the domain
    /// and rounded up.
    pub fn multiplier(&self) -> (r: WideUint<W>)
        ensures
            r@ == self@.multiplier,
    {
        self.multiplier
    }

    /// The first shift, zero or one.
    pub fn sh1(&self) -> (r: u32)
        ensures
            r == self@.sh1,
    {
        self.sh1
    }

    /// The second shift.
    pub fn sh2(&self) -> (r: u32)
        ensures
            r == self@.sh2,
    {
        self.sh2
    }
}

} // verus!
