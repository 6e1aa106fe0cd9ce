//! The arithmetic behind division by multiplication: which multiplier and
//! shifts belong to a divisor, what the multiply-and-shift evaluation
//! computes, and the proof that it is the exact quotient.
//!
//! Everything here is stated over natural numbers. `h` is the domain
//! half-width in bits: divisors and dividends lie below `2^h`.

use vstd::prelude::*;
use vstd::arithmetic::div_mod::{
    lemma_div_denominator,
    lemma_fundamental_div_mod,
    lemma_fundamental_div_mod_converse,
    lemma_hoist_over_denominator,
    lemma_mod_bound,
    lemma_multiply_divide_le,
    lemma_multiply_divide_lt,
    lemma_div_pos_is_pos,
    lemma_small_mod,
};
use vstd::arithmetic::mul::{lemma_mul_inequality_converse, lemma_mul_strict_inequality_converse};
use vstd::arithmetic::power2::{
    lemma_pow2_pos,
    lemma_pow2_strictly_increases,
    lemma_pow2_unfold,
    pow2,
};

verus! {

/// The smallest exponent `l` with `2^l >= d`.
pub open spec fn ceil_log2(d: nat) -> nat
    decreases d,
{
    if d <= 1 {
        0
    } else {
        1 + ceil_log2((d + 1) / 2)
    }
}

/// The reciprocal of `d` scaled to `h` bits and rounded up, before it is cut
/// to the half-width: `floor(2^h * (2^l - d) / d) + 1` with `l = ceil_log2(d)`.
pub open spec fn raw_multiplier(h: nat, d: nat) -> nat {
    ((pow2(h) * (pow2(ceil_log2(d)) - d)) / (d as int) + 1) as nat
}

/// The multiplier of a divisor: the rounded reciprocal, cut to its low `h`
/// bits.
pub open spec fn multiplier_of(h: nat, d: nat) -> nat {
    raw_multiplier(h, d) % pow2(h)
}

/// The first shift of a divisor: `min(l, 1)`.
pub open spec fn pre_shift_of(d: nat) -> nat {
    if ceil_log2(d) == 0 {
        0
    } else {
        1
    }
}

/// The second shift of a divisor: `max(l - 1, 0)`.
pub open spec fn post_shift_of(d: nat) -> nat {
    if ceil_log2(d) == 0 {
        0
    } else {
        (ceil_log2(d) - 1) as nat
    }
}

/// The high half of the double-width product `n * m`.
pub open spec fn multiply_high(n: nat, m: nat, h: nat) -> nat {
    (n * m) / pow2(h)
}

/// What the multiply-and-shift evaluation yields for dividend `n` with
/// multiplier `m` and shifts `sh1`, `sh2`:
/// `(t + ((n - t) >> sh1)) >> sh2` where `t` is the high half of `n * m`.
pub open spec fn multiply_shift(n: nat, m: nat, sh1: nat, sh2: nat, h: nat) -> nat {
    let t = multiply_high(n, m, h);
    ((t + (n - t) / (pow2(sh1) as int)) / (pow2(sh2) as int)) as nat
}

/// `ceil_log2(d)` is an exponent whose power of two reaches `d`, and the
/// exponent below it does not.
pub proof fn lemma_ceil_log2_bounds(d: nat)
    requires
        d >= 1,
    ensures
        pow2(ceil_log2(d)) >= d,
        ceil_log2(d) > 0 ==> pow2((ceil_log2(d) - 1) as nat) < d,
        ceil_log2(d) == 0 <==> d == 1,
    decreases d,
{
    if d == 1 {
        assert(pow2(0) == 1) by {
            vstd::arithmetic::power2::lemma2_to64();
        }
    } else {
        let c = (d + 1) / 2;
        let lc = ceil_log2(c);
        lemma_ceil_log2_bounds(c);
        lemma_pow2_unfold(lc + 1);
        if lc == 0 {
            assert(pow2(0) == 1) by {
                vstd::arithmetic::power2::lemma2_to64();
            }
        } else {
            lemma_pow2_unfold(lc);
        }
    }
}

/// Powers of two do not decrease with the exponent.
pub proof fn lemma_pow2_monotone(a: nat, b: nat)
    requires
        a <= b,
    ensures
        pow2(a) <= pow2(b),
{
    if a < b {
        lemma_pow2_strictly_increases(a, b);
    }
}

/// Only one exponent has the two properties of `ceil_log2(d)`.
pub proof fn lemma_ceil_log2_unique(d: nat, l: nat)
    requires
        d >= 1,
        pow2(l) >= d,
        l > 0 ==> pow2((l - 1) as nat) < d,
    ensures
        l == ceil_log2(d),
{
    let c = ceil_log2(d);
    lemma_ceil_log2_bounds(d);
    if l < c {
        lemma_pow2_monotone(l, (c - 1) as nat);
    } else if c < l {
        lemma_pow2_monotone(c, (l - 1) as nat);
    }
}

/// A divisor below `2^h` has `ceil_log2` at most `h`, and `2^l - d` is
/// smaller than the divisor itself.
pub proof fn lemma_exponent_in_range(h: nat, d: nat)
    requires
        0 < d < pow2(h),
    ensures
        ceil_log2(d) <= h,
        d <= pow2(ceil_log2(d)) < 2 * d,
        pow2(ceil_log2(d)) <= pow2(h),
{
    let l = ceil_log2(d);
    lemma_ceil_log2_bounds(d);
    if l > h {
        lemma_pow2_monotone(h, (l - 1) as nat);
    }
    lemma_pow2_monotone(l, h);
    if l > 0 {
        lemma_pow2_unfold(l);
    } else {
        assert(pow2(0) == 1) by {
            vstd::arithmetic::power2::lemma2_to64();
        }
    }
}

/// The rounded reciprocal of a divisor below `2^h` already fits in `h` bits,
/// so cutting it to the half-width changes nothing; and with `2^h` added it is
/// `floor(2^(h + l) / d) + 1`.
pub proof fn lemma_raw_multiplier_fits(h: nat, d: nat)
    requires
        0 < d < pow2(h),
    ensures
        0 < raw_multiplier(h, d) < pow2(h),
        multiplier_of(h, d) == raw_multiplier(h, d),
        raw_multiplier(h, d) + pow2(h) == (pow2(h) * pow2(ceil_log2(d))) / d + 1,
        0 <= pow2(h) * (pow2(ceil_log2(d)) - d) < pow2(h) * pow2(h),
{
    let p = pow2(h) as int;
    let cap = pow2(ceil_log2(d)) as int;
    let di = d as int;
    let e = cap - di;
    let x = p * e;
    lemma_exponent_in_range(h, d);
    assert(0 <= x <= p * di - p) by (nonlinear_arith)
        requires
            x == p * e,
            0 <= e <= di - 1,
            p > 0,
    ;
    assert(x < di * (p - 1)) by (nonlinear_arith)
        requires
            x <= p * di - p,
            di < p,
    ;
    lemma_multiply_divide_lt(x, di, p - 1);
    lemma_div_pos_is_pos(x, di);
    assert(x + p * di == p * cap) by (nonlinear_arith)
        requires
            x == p * e,
            e == cap - di,
    ;
    lemma_hoist_over_denominator(x, p, d);
    lemma_small_mod(raw_multiplier(h, d), pow2(h));
    assert(x < p * p) by (nonlinear_arith)
        requires
            x <= p * di - p,
            di < p,
            p > 0,
    ;
}

/// The heart of the method. With `m = floor(p * cap / d) + 1`, where
/// `d <= cap`, the quotient of `n` by `d` is `floor(m * n / (p * cap))` for
/// every `n` below `p`.
pub proof fn lemma_scaled_reciprocal(n: int, d: int, p: int, cap: int, m: int)
    requires
        0 < d <= cap,
        0 <= n < p,
        m == (p * cap) / d + 1,
    ensures
        p * cap > 0,
        (m * n) / (p * cap) == n / d,
{
    let k = p * cap;
    assert(k > 0) by (nonlinear_arith)
        requires
            k == p * cap,
            p > 0,
            cap > 0,
    ;
    lemma_fundamental_div_mod(k, d);
    lemma_mod_bound(k, d);
    let e = m * d - k;
    assert(m * d == d * (k / d) + d) by (nonlinear_arith)
        requires
            m == k / d + 1,
    ;
    assert(0 < e <= d);
    assert(n * e < k) by (nonlinear_arith)
        requires
            0 <= n <= p - 1,
            0 < e <= cap,
            k == p * cap,
            cap > 0,
    ;
    let q = n / d;
    let r = n % d;
    lemma_fundamental_div_mod(n, d);
    lemma_mod_bound(n, d);
    lemma_div_pos_is_pos(n, d);
    let mn = m * n;
    assert(mn * d == n * k + n * e) by (nonlinear_arith)
        requires
            mn == m * n,
            e == m * d - k,
    ;
    assert((q * k) * d <= n * k) by (nonlinear_arith)
        requires
            n == d * q + r,
            0 <= r,
            k > 0,
    ;
    assert(n * k + k <= ((q + 1) * k) * d) by (nonlinear_arith)
        requires
            n == d * q + r,
            r <= d - 1,
            k > 0,
    ;
    lemma_mul_inequality_converse(q * k, mn, d);
    lemma_mul_strict_inequality_converse(mn, (q + 1) * k, d);
    assert((q + 1) * k == q * k + k) by (nonlinear_arith);
    lemma_fundamental_div_mod_converse(mn, k, q, mn - q * k);
}

/// Exactness of the method: for a divisor and a dividend below `2^h`, the
/// multiply-and-shift evaluation with the divisor's own multiplier and shifts
/// is the quotient rounded down. Along the way the product `n * m` stays
/// below `2^(2h)` and its high half does not exceed the dividend.
pub proof fn lemma_multiply_shift_exact(h: nat, d: nat, n: nat)
    requires
        0 < d < pow2(h),
        n < pow2(h),
    ensures
        n * multiplier_of(h, d) < pow2(h) * pow2(h),
        multiply_high(n, multiplier_of(h, d), h) <= n,
        multiply_shift(n, multiplier_of(h, d), pre_shift_of(d), post_shift_of(d), h) == n / d,
{
    let l = ceil_log2(d);
    let p = pow2(h) as int;
    let cap = pow2(l) as int;
    let m = multiplier_of(h, d) as int;
    let ni = n as int;
    let di = d as int;
    let t = multiply_high(n, multiplier_of(h, d), h) as int;
    let x = ni * m;
    lemma_raw_multiplier_fits(h, d);
    lemma_exponent_in_range(h, d);
    lemma_ceil_log2_bounds(d);
    assert(0 <= x <= p * ni && x < p * p) by (nonlinear_arith)
        requires
            x == ni * m,
            0 <= m < p,
            0 <= ni < p,
    ;
    lemma_multiply_divide_le(x, p, ni);
    lemma_div_pos_is_pos(x, p);
    assert(t == x / p);
    let big = m + p;
    lemma_scaled_reciprocal(ni, di, p, cap, big);
    assert(big * ni == x + ni * p) by (nonlinear_arith)
        requires
            x == ni * m,
            big == m + p,
    ;
    lemma_hoist_over_denominator(x, ni, pow2(h));
    lemma_div_denominator(big * ni, p, cap);
    assert((t + ni) / cap == ni / di);
    assert(pow2(0) == 1 && pow2(1) == 2) by {
        vstd::arithmetic::power2::lemma2_to64();
    }
    let result = multiply_shift(n, multiplier_of(h, d), pre_shift_of(d), post_shift_of(d), h);
    if l == 0 {
        assert(result == ((t + (ni - t) / 1) / 1) as nat);
    } else {
        let half_cap = pow2((l - 1) as nat) as int;
        lemma_pow2_unfold(l);
        lemma_pow2_pos((l - 1) as nat);
        assert(t + (ni - t) / 2 == (t + ni) / 2);
        assert(result == (((t + ni) / 2) / half_cap) as nat);
        lemma_div_denominator(t + ni, 2, half_cap);
        lemma_div_pos_is_pos(ni, di);
    }
}

} // verus!
