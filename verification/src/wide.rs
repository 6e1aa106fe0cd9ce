//! Wide unsigned integers of a fixed number of 64-bit digits.
//!
//! [`WideUint`] is the plain-data form of `bnum::BUint`: the same digits in
//! the same order. Its view is the natural number that the digits denote, and
//! every operation is stated over that number. The operations themselves are
//! `bnum`'s; their contracts are trusted and say what `bnum` computes on the
//! inputs on which it neither panics nor wraps unnoticed.

use bnum::BUint;
use vstd::prelude::*;
use vstd::arithmetic::power::pow;
use vstd::arithmetic::div_mod::{lemma_mod_breakdown, lemma_small_mod};
use vstd::arithmetic::power2::{
    lemma_pow2_pos,
    lemma_pow2_strictly_increases,
    lemma_pow2_unfold,
    pow2,
};

verus! {

/// The natural number that a little-endian sequence of 64-bit digits denotes.
pub open spec fn digits_value(digits: Seq<u64>) -> nat
    decreases digits.len(),
{
    if digits.len() == 0 {
        0
    } else {
        digits[0] as nat + 0x1_0000_0000_0000_0000 * digits_value(digits.drop_first())
    }
}

/// The bitwise conjunction of two natural numbers: bit `i` of the result is
/// set exactly when bit `i` is set in both `a` and `b`.
pub open spec fn nat_and(a: nat, b: nat) -> nat
    decreases a,
{
    if a == 0 {
        0
    } else {
        (if a % 2 == 1 && b % 2 == 1 {
            1nat
        } else {
            0nat
        }) + 2 * nat_and(a / 2, b / 2)
    }
}

/// The largest digit count for which the bit count `64 * W` still fits the
/// 32-bit shift amounts that the arithmetic works with.
pub const MAX_DIGITS: usize = 0x3ff_ffff;

/// An unsigned integer of `W` digits of 64 bits each, least significant digit
/// first.
#[derive(Clone, Copy, Debug, PartialEq, Eq)]
pub struct WideUint<const W: usize> {
    pub digits: [u64; W],
}

impl<const W: usize> View for WideUint<W> {
    type V = nat;

    open spec fn view(&self) -> nat {
        digits_value(self.digits@)
    }
}

impl<const W: usize> WideUint<W> {
    /// The number of bits that a value of this type holds.
    pub open spec fn bits() -> nat {
        (64 * W) as nat
    }

    /// Whether the digit count is one that the arithmetic supports: at least
    /// one digit, and a bit count that fits in 32 bits.
    pub open spec fn width_ok() -> bool {
        0 < W <= MAX_DIGITS
    }

    /// The wide integer whose value is `value`.
    pub fn from_u64(value: u64) -> (r: Self)
        requires
            0 < W,
        ensures
            r@ == value,
    {
        let mut digits = [0u64; W];
        digits[0] = value;
        proof {
            lemma_zero_digits_value(digits@.drop_first());
        }
        WideUint { digits }
    }

    /// The low `count` bits of `self`: the value with every higher bit
    /// cleared.
    pub fn low_bits(&self, count: u32) -> (r: Self)
        requires
            Self::width_ok(),
            count < Self::bits(),
        ensures
            r@ == self@ % pow2(count as nat),
    {
        let one = Self::from_u64(1);
        proof {
            lemma_pow2_pos(count as nat);
            lemma_pow2_strictly_increases(count as nat, Self::bits());
            lemma_small_mod(pow2(count as nat), pow2(Self::bits()));
            assert(1 * pow2(count as nat) == pow2(count as nat));
            lemma_nat_and_low_mask(self@, count as nat);
        }
        let mask = one.shl(count).minus(&one);
        self.bitand(&mask)
    }

    /// Whether `self` is smaller than `rhs`.
    ///
    /// Trusted: `BUint`'s `<` (`PartialOrd::partial_cmp`), which compares the
    /// digits from the most significant one down, that is, the two numbers.
    #[verifier::external_body]
    pub(crate) fn less_than(&self, rhs: &Self) -> (r: bool)
        ensures
            r == (self@ < rhs@),
    {
        BUint::<W>::from_digits(self.digits) < BUint::<W>::from_digits(rhs.digits)
    }

    /// The logarithm of `self` to the given base, rounded down.
    ///
    /// Trusted: `BUint::ilog`. It panics on a zero `self` and on a base below
    /// two; otherwise it returns the largest exponent at which the power of
    /// the base does not exceed `self`.
    #[verifier::external_body]
    pub(crate) fn ilog(&self, base: &Self) -> (r: u32)
        requires
            self@ > 0,
            base@ >= 2,
        ensures
            pow(base@ as int, r as nat) <= self@ < pow(base@ as int, (r + 1) as nat),
    {
        BUint::<W>::from_digits(self.digits).ilog(BUint::<W>::from_digits(base.digits))
    }

    /// `self` shifted left by `shift` bits; bits that leave the type are lost.
    ///
    /// Trusted: `BUint`'s `<<` with a `u32` amount (`Shl::shl`). It panics in
    /// a checked build when the amount reaches the bit count; below that it
    /// moves every bit up by `shift` places and drops those beyond the top.
    #[verifier::external_body]
    pub(crate) fn shl(&self, shift: u32) -> (r: Self)
        requires
            shift < Self::bits(),
        ensures
            r@ == (self@ * pow2(shift as nat)) % pow2(Self::bits()),
    {
        let shifted = BUint::<W>::from_digits(self.digits) << shift;
        WideUint { digits: *shifted.digits() }
    }

    /// `self` shifted right by `shift` bits.
    ///
    /// Trusted: `BUint`'s `>>` with a `u32` amount (`Shr::shr`). It panics in
    /// a checked build when the amount reaches the bit count; below that it
    /// moves every bit down by `shift` places and fills with zeros.
    #[verifier::external_body]
    pub(crate) fn shr(&self, shift: u32) -> (r: Self)
        requires
            shift < Self::bits(),
        ensures
            r@ == self@ / pow2(shift as nat),
    {
        let shifted = BUint::<W>::from_digits(self.digits) >> shift;
        WideUint { digits: *shifted.digits() }
    }

    /// The sum of two values that does not exceed the type's range.
    ///
    /// Trusted: `BUint`'s `+` between two wide integers (`Add::add`). It adds
    /// digit by digit with carry; a carry out of the top digit is an overflow,
    /// on which a checked build panics.
    #[verifier::external_body]
    pub(crate) fn plus(&self, rhs: &Self) -> (r: Self)
        requires
            self@ + rhs@ < pow2(Self::bits()),
        ensures
            r@ == self@ + rhs@,
    {
        let sum = BUint::<W>::from_digits(self.digits) + BUint::<W>::from_digits(rhs.digits);
        WideUint { digits: *sum.digits() }
    }

    /// The sum of `self` and one 64-bit digit, reduced to the type's range.
    ///
    /// Trusted: `BUint`'s `+` with a `u64` on the right (`Add<u64>::add`). It
    /// adds the digit to the lowest digit and lets the carry run upwards; a
    /// carry out of the top digit is dropped without notice. It indexes the
    /// lowest digit, so the type must have one.
    #[verifier::external_body]
    pub(crate) fn plus_digit(&self, rhs: u64) -> (r: Self)
        requires
            0 < W,
        ensures
            r@ == (self@ + rhs) % (pow2(Self::bits()) as int),
    {
        let sum = BUint::<W>::from_digits(self.digits) + rhs;
        WideUint { digits: *sum.digits() }
    }

    /// The difference of two values, the second not larger than the first.
    ///
    /// Trusted: `BUint`'s `-` (`Sub::sub`). It subtracts digit by digit with
    /// borrow; a borrow out of the top digit is an overflow, on which a
    /// checked build panics.
    #[verifier::external_body]
    pub(crate) fn minus(&self, rhs: &Self) -> (r: Self)
        requires
            rhs@ <= self@,
        ensures
            r@ == self@ - rhs@,
    {
        let difference = BUint::<W>::from_digits(self.digits) - BUint::<W>::from_digits(rhs.digits);
        WideUint { digits: *difference.digits() }
    }

    /// The product of two values that does not exceed the type's range.
    ///
    /// Trusted: `BUint`'s `*` (`Mul::mul`). It multiplies digit by digit and
    /// reports an overflow when the product needs more than `64 * W` bits, on
    /// which a checked build panics; without overflow the result is the
    /// product.
    #[verifier::external_body]
    pub(crate) fn times(&self, rhs: &Self) -> (r: Self)
        requires
            self@ * rhs@ < pow2(Self::bits()),
        ensures
            r@ == self@ * rhs@,
    {
        let product = BUint::<W>::from_digits(self.digits) * BUint::<W>::from_digits(rhs.digits);
        WideUint { digits: *product.digits() }
    }

    /// The quotient of `self` by a nonzero `rhs`, rounded down.
    ///
    /// Trusted: `BUint`'s `/` (`Div::div`). It panics on a zero divisor and
    /// otherwise returns the quotient of long division.
    #[verifier::external_body]
    pub(crate) fn divided_by(&self, rhs: &Self) -> (r: Self)
        requires
            rhs@ > 0,
        ensures
            r@ == self@ / rhs@,
    {
        let quotient = BUint::<W>::from_digits(self.digits) / BUint::<W>::from_digits(rhs.digits);
        WideUint { digits: *quotient.digits() }
    }

    /// The bitwise conjunction of two values.
    ///
    /// Trusted: `BUint`'s `&` (`BitAnd::bitand`), which takes the conjunction
    /// of the two numbers digit by digit.
    #[verifier::external_body]
    pub(crate) fn bitand(&self, rhs: &Self) -> (r: Self)
        ensures
            r@ == nat_and(self@, rhs@),
    {
        let conjunction = BUint::<W>::from_digits(self.digits) & BUint::<W>::from_digits(rhs.digits);
        WideUint { digits: *conjunction.digits() }
    }
}

/// A sequence of zero digits denotes zero.
pub proof fn lemma_zero_digits_value(digits: Seq<u64>)
    requires
        forall|i: int| 0 <= i < digits.len() ==> digits[i] == 0,
    ensures
        digits_value(digits) == 0,
    decreases digits.len(),
{
    if digits.len() > 0 {
        lemma_zero_digits_value(digits.drop_first());
    }
}

/// The conjunction with zero is zero.
pub proof fn lemma_nat_and_zero(a: nat)
    ensures
        nat_and(a, 0) == 0,
    decreases a,
{
    if a > 0 {
        lemma_nat_and_zero(a / 2);
    }
}

/// The conjunction with `2^k - 1` keeps the low `k` bits: it is the remainder
/// modulo `2^k`.
pub proof fn lemma_nat_and_low_mask(a: nat, k: nat)
    ensures
        nat_and(a, (pow2(k) - 1) as nat) == a % pow2(k),
    decreases k,
{
    lemma_pow2_pos(k);
    let mask = (pow2(k) - 1) as nat;
    if a == 0 {
        assert(nat_and(a, mask) == 0);
    } else if k == 0 {
        assert(pow2(0) == 1) by {
            vstd::arithmetic::power2::lemma2_to64();
        }
        lemma_nat_and_zero(a);
    } else {
        let half = pow2((k - 1) as nat);
        lemma_pow2_unfold(k);
        lemma_pow2_pos((k - 1) as nat);
        assert(mask % 2 == 1 && mask / 2 == half - 1);
        lemma_nat_and_low_mask(a / 2, (k - 1) as nat);
        lemma_mod_breakdown(a as int, 2, half as int);
    }
}

} // verus!
