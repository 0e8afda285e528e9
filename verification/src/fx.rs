//! Saturating fixed-point scalars.
//!
//! A scalar is an `i64` mantissa in micro-units: the mantissa [`FX_ONE`]
//! stands for the value one. Sums and products saturate at the `i64` range,
//! products and quotients truncate toward zero, a quotient with a zero
//! divisor saturates in the direction of the dividend's sign (and is zero
//! for a zero dividend), and the square root of a negative number is zero.
//! These conventions replace the non-finite values that ordinary floating
//! point would produce in the same places, so every operation here is total
//! and deterministic.

use vstd::arithmetic::div_mod::lemma_div_is_ordered_by_denominator;
use vstd::prelude::*;

verus! {

/// The mantissa of the value one.
pub const FX_ONE: i64 = 1_000_000;

/// Mantissa standing in for "beyond every finite quantity": strict upper
/// interval bounds at `FX_INF` admit every attainable scalar, since
/// saturation is the only way a computation reaches `i64::MAX`.
pub const FX_INF: i64 = i64::MAX;

/// Clamps a mathematical integer into the `i64` range.
pub open spec fn sat(x: int) -> int {
    if x > i64::MAX {
        i64::MAX as int
    } else if x < i64::MIN {
        i64::MIN as int
    } else {
        x
    }
}

/// Division truncated toward zero, as the machine division instruction
/// rounds; meaningful only for a nonzero divisor.
pub open spec fn tdiv(x: int, d: int) -> int
    recommends
        d != 0,
{
    if x == 0 {
        0
    } else if x > 0 && d > 0 {
        x / d
    } else if x < 0 && d < 0 {
        (-x) / (-d)
    } else if x < 0 {
        -((-x) / d)
    } else {
        -(x / (-d))
    }
}

/// The sum of two scalars.
pub open spec fn fx_add_spec(a: int, b: int) -> int {
    sat(a + b)
}

/// The difference of two scalars.
pub open spec fn fx_sub_spec(a: int, b: int) -> int {
    sat(a - b)
}

/// The negation of a scalar.
pub open spec fn fx_neg_spec(a: int) -> int {
    sat(-a)
}

/// The product of two scalars: the mantissa product rescaled by one unit,
/// truncated toward zero.
pub open spec fn fx_mul_spec(a: int, b: int) -> int {
    sat(tdiv(a * b, FX_ONE as int))
}

/// The quotient of two scalars. A zero divisor saturates in the direction
/// of the dividend's sign; zero over zero is zero.
pub open spec fn fx_div_spec(a: int, b: int) -> int {
    if b == 0 {
        if a > 0 {
            i64::MAX as int
        } else if a < 0 {
            i64::MIN as int
        } else {
            0
        }
    } else {
        sat(tdiv(a * (FX_ONE as int), b))
    }
}

/// The greatest `r` with `r * r <= n`.
pub open spec fn sqrt_floor(n: nat) -> nat
    decreases n,
{
    if n == 0 {
        0
    } else {
        let r = sqrt_floor((n - 1) as nat);
        if (r + 1) * (r + 1) <= n {
            r + 1
        } else {
            r
        }
    }
}

/// The square root of a scalar: zero for a non-positive argument, else the
/// floor square root of the mantissa rescaled so the result is again in
/// micro-units.
pub open spec fn fx_sqrt_spec(a: int) -> int {
    if a <= 0 {
        0
    } else {
        sqrt_floor((a * (FX_ONE as int)) as nat) as int
    }
}

/// `b` raised to the integer power `e` (one for `e <= 0`), each step a
/// saturating fixed-point product.
pub open spec fn fx_pow_spec(b: int, e: int) -> int
    decreases e,
{
    if e <= 0 {
        FX_ONE as int
    } else {
        fx_mul_spec(b, fx_pow_spec(b, e - 1))
    }
}

/// `sqrt_floor(n)` is characterized by bracketing `n` between consecutive
/// squares.
pub proof fn lemma_sqrt_floor_bounds(n: nat)
    ensures
        sqrt_floor(n) * sqrt_floor(n) <= n,
        n < (sqrt_floor(n) + 1) * (sqrt_floor(n) + 1),
    decreases n,
{
    if n == 0 {
        assert(sqrt_floor(0) == 0);
        assert((0nat + 1) * (0nat + 1) == 1) by (nonlinear_arith);
    } else {
        let r = sqrt_floor((n - 1) as nat);
        lemma_sqrt_floor_bounds((n - 1) as nat);
        assert(r * r <= n - 1);
        assert(n - 1 < (r + 1) * (r + 1));
        if (r + 1) * (r + 1) <= n {
            assert(sqrt_floor(n) == r + 1);
            assert(n == (r + 1) * (r + 1));
            assert((r + 2) * (r + 2) > n) by (nonlinear_arith)
                requires
                    n == (r + 1) * (r + 1),
            ;
            assert(n < (sqrt_floor(n) + 1) * (sqrt_floor(n) + 1));
        } else {
            assert(sqrt_floor(n) == r);
            assert(sqrt_floor(n) * sqrt_floor(n) <= n);
            assert(n < (sqrt_floor(n) + 1) * (sqrt_floor(n) + 1));
        }
    }
}

/// Any `r` bracketing `n` between `r * r` and `(r + 1) * (r + 1)` is the
/// floor square root.
pub proof fn lemma_sqrt_floor_unique(n: nat, r: nat)
    requires
        r * r <= n,
        n < (r + 1) * (r + 1),
    ensures
        r == sqrt_floor(n),
{
    let s = sqrt_floor(n);
    lemma_sqrt_floor_bounds(n);
    if r < s {
        assert((r + 1) * (r + 1) <= s * s) by (nonlinear_arith)
            requires
                r + 1 <= s,
        ;
    }
    if s < r {
        assert((s + 1) * (s + 1) <= r * r) by (nonlinear_arith)
            requires
                s + 1 <= r,
        ;
    }
}

/// Saturating addition.
pub fn fx_add(a: i64, b: i64) -> (r: i64)
    ensures
        r as int == fx_add_spec(a as int, b as int),
{
    match a.checked_add(b) {
        Some(s) => s,
        None => {
            if a > 0 {
                i64::MAX
            } else {
                i64::MIN
            }
        },
    }
}

/// Saturating subtraction.
pub fn fx_sub(a: i64, b: i64) -> (r: i64)
    ensures
        r as int == fx_sub_spec(a as int, b as int),
{
    match a.checked_sub(b) {
        Some(s) => s,
        None => {
            if a >= 0 {
                i64::MAX
            } else {
                i64::MIN
            }
        },
    }
}

/// Saturating negation: only `i64::MIN` saturates.
pub fn fx_neg(a: i64) -> (r: i64)
    ensures
        r as int == fx_neg_spec(a as int),
{
    if a == i64::MIN {
        i64::MAX
    } else {
        -a
    }
}

/// Saturating fixed-point product.
pub fn fx_mul(a: i64, b: i64) -> (r: i64)
    ensures
        r as int == fx_mul_spec(a as int, b as int),
{
    let p: i128 = wide_mul(a, b);
    proof {
        lemma_tdiv_shrinks(p as int, FX_ONE as int);
    }
    let q: i128 = match p.checked_div(FX_ONE as i128) {
        Some(q) => q,
        None => 0,  // unreachable: the divisor is positive and the quotient shrinks
    };
    assert(q as int == tdiv(a as int * b as int, FX_ONE as int));
    sat_to_i64(q)
}

/// Saturating fixed-point quotient.
pub fn fx_div(a: i64, b: i64) -> (r: i64)
    ensures
        r as int == fx_div_spec(a as int, b as int),
{
    if b == 0 {
        if a > 0 {
            i64::MAX
        } else if a < 0 {
            i64::MIN
        } else {
            0
        }
    } else {
        proof {
            assert(i128::MIN <= a as int * (FX_ONE as int) <= i128::MAX) by (nonlinear_arith)
                requires
                    i64::MIN <= a as int <= i64::MAX,
            ;
        }
        let p: i128 = (a as i128) * (FX_ONE as i128);
        proof {
            lemma_tdiv_shrinks(p as int, b as int);
        }
        let q: i128 = match p.checked_div(b as i128) {
            Some(q) => q,
            None => 0,  // unreachable: the divisor is nonzero and the quotient shrinks
        };
        assert(q as int == tdiv(a as int * (FX_ONE as int), b as int));
        sat_to_i64(q)
    }
}

/// Fixed-point square root: zero for non-positive arguments.
pub fn fx_sqrt(a: i64) -> (r: i64)
    ensures
        r as int == fx_sqrt_spec(a as int),
{
    if a <= 0 {
        0
    } else {
        proof {
            assert(a as nat * (FX_ONE as nat) < 0x1_0000_0000_0000_0000_0000_0000u128 as nat)
                by (nonlinear_arith)
                requires
                    0 <= a as nat <= i64::MAX,
            ;
        }
        let n: u128 = (a as u128) * (FX_ONE as u128);
        let s: u64 = isqrt(n);
        proof {
            lemma_sqrt_floor_unique(n as nat, s as nat);
            assert(s < 0x1_0000_0000_0000) by (nonlinear_arith)
                requires
                    (s as nat) * (s as nat) <= n as nat,
                    n < 0x1_0000_0000_0000_0000_0000_0000u128,
            ;
        }
        s as i64
    }
}

/// Fixed-point integer power by repeated saturating products.
pub fn fx_powi(b: i64, e: i64) -> (r: i64)
    ensures
        r as int == fx_pow_spec(b as int, e as int),
{
    let mut acc: i64 = FX_ONE;
    let mut i: i64 = 0;
    if e <= 0 {
        return acc;
    }
    while i < e
        invariant
            0 <= i <= e,
            acc as int == fx_pow_spec(b as int, i as int),
        decreases e - i,
    {
        acc = fx_mul(b, acc);
        i = i + 1;
    }
    acc
}

/// Floor square root of a mantissa product, by bisection.
fn isqrt(n: u128) -> (r: u64)
    requires
        n < 0x1_0000_0000_0000_0000_0000_0000u128,  // below 2^96
    ensures
        (r as nat) * (r as nat) <= n as nat,
        n < ((r as nat) + 1) * ((r as nat) + 1),
{
    let mut lo: u128 = 0;
    let mut hi: u128 = 0x1_0000_0000_0000u128;  // 2^48, whose square bounds n
    proof {
        assert((hi as nat) * (hi as nat) > n as nat) by (nonlinear_arith)
            requires
                hi == 0x1_0000_0000_0000u128,
                n < 0x1_0000_0000_0000_0000_0000_0000u128,
        ;
    }
    while lo + 1 < hi
        invariant
            lo < hi <= 0x1_0000_0000_0000u128,
            (lo as nat) * (lo as nat) <= n as nat,
            (hi as nat) * (hi as nat) > n as nat,
        decreases hi - lo,
    {
        let mid: u128 = (lo + hi) / 2;
        proof {
            assert(mid as nat * (mid as nat) <= u128::MAX) by (nonlinear_arith)
                requires
                    mid as nat <= 0x1_0000_0000_0000u128 as nat,
            ;
        }
        if mid * mid <= n {
            lo = mid;
        } else {
            hi = mid;
        }
    }
    lo as u64
}

/// Clamps an `i128` into the `i64` range.
fn sat_to_i64(q: i128) -> (r: i64)
    ensures
        r as int == sat(q as int),
{
    if q > i64::MAX as i128 {
        i64::MAX
    } else if q < i64::MIN as i128 {
        i64::MIN
    } else {
        q as i64
    }
}

/// A truncated quotient is no larger in magnitude than its dividend, for a
/// divisor of magnitude at least one.
proof fn lemma_tdiv_shrinks(x: int, d: int)
    requires
        d != 0,
    ensures
        -x <= tdiv(x, d) <= x || x <= tdiv(x, d) <= -x,
{
    if x > 0 && d > 0 {
        lemma_div_is_ordered_by_denominator(x, 1, d);
    } else if x < 0 && d < 0 {
        lemma_div_is_ordered_by_denominator(-x, 1, -d);
    } else if x < 0 && d > 0 {
        lemma_div_is_ordered_by_denominator(-x, 1, d);
    } else if x > 0 && d < 0 {
        lemma_div_is_ordered_by_denominator(x, 1, -d);
    }
}

/// The mantissa product of two `i64` values, widened into `i128`.
fn wide_mul(a: i64, b: i64) -> (p: i128)
    ensures
        p as int == a as int * b as int,
{
    proof {
        assert(i128::MIN <= a as int * b as int <= i128::MAX) by (nonlinear_arith)
            requires
                i64::MIN <= a as int <= i64::MAX,
                i64::MIN <= b as int <= i64::MAX,
        ;
    }
    (a as i128) * (b as i128)
}

} // verus!
