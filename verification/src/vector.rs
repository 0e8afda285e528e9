//! A small stack-allocated vector of one to four fixed-point components,
//! used by the renderer for positions, directions and colors.
//!
//! Every operation is specified exactly, component by component, in terms of
//! the saturating fixed-point scalar model in [`crate::fx`]. Binary
//! operations require equal declared lengths where the corresponding
//! assertion is fatal; the four component slots always exist, and components
//! past the declared length ride along unused.

use crate::fx::{
    fx_add, fx_add_spec, fx_div, fx_div_spec, fx_mul, fx_mul_spec, fx_neg, fx_neg_spec, fx_sqrt,
    fx_sqrt_spec, fx_sub, fx_sub_spec, sat, tdiv, FX_ONE,
};
use vstd::prelude::*;

verus! {

/// A vector with anywhere between 1 and 4 elements, always on the stack.
#[derive(Clone, Copy, Debug)]
pub struct Vector {
    pub e0: i64,
    pub e1: i64,
    pub e2: i64,
    pub e3: i64,
    pub declared: usize,
}

/// Clamps a mathematical integer into `i64`, as a value of that type.
pub open spec fn sat64(x: int) -> i64 {
    sat(x) as i64
}

impl Vector {
    /// The mantissa of component `i`, as a mathematical integer.
    pub open spec fn at(self, i: int) -> int {
        if i == 0 {
            self.e0 as int
        } else if i == 1 {
            self.e1 as int
        } else if i == 2 {
            self.e2 as int
        } else {
            self.e3 as int
        }
    }

    /// The declared length.
    pub open spec fn dlen(self) -> int {
        self.declared as int
    }

    /// Builds the vector whose four component mantissas and declared length
    /// are given; the spec-level constructor that the operation models
    /// below are phrased with.
    pub open spec fn make(c0: int, c1: int, c2: int, c3: int, l: int) -> Vector {
        Vector { e0: sat64(c0), e1: sat64(c1), e2: sat64(c2), e3: sat64(c3), declared: l as usize }
    }

    /// Returns the four internal component mantissas.
    pub fn get(&self) -> (r: [i64; 4])
        ensures
            r@ == seq![self.e0, self.e1, self.e2, self.e3],
    {
        [self.e0, self.e1, self.e2, self.e3]
    }

    pub fn x(&self) -> (r: i64)
        ensures
            r as int == self.at(0),
    {
        self.e0
    }

    pub fn y(&self) -> (r: i64)
        requires
            self.dlen() >= 1,
        ensures
            r as int == self.at(1),
    {
        self.e1
    }

    pub fn z(&self) -> (r: i64)
        requires
            self.dlen() >= 2,
        ensures
            r as int == self.at(2),
    {
        self.e2
    }

    pub fn w(&self) -> (r: i64)
        requires
            self.dlen() >= 3,
        ensures
            r as int == self.at(3),
    {
        self.e3
    }

    /// Returns a zero vector of size `len`.
    pub fn zero(len: usize) -> (r: Vector)
        requires
            0 < len < 5,
        ensures
            r == Vector::make(0, 0, 0, 0, len as int),
    {
        Vector { e0: 0, e1: 0, e2: 0, e3: 0, declared: len }
    }

    /// Returns a vector with all elements set to `s` and of size `len`.
    pub fn from_s(s: i64, len: usize) -> (r: Vector)
        requires
            0 < len < 5,
        ensures
            r == Vector::make(s as int, s as int, s as int, s as int, len as int),
    {
        Vector { e0: s, e1: s, e2: s, e3: s, declared: len }
    }

    /// Returns a vector created from array `arr` and of size `len`.
    pub fn from_v(arr: [i64; 4], len: usize) -> (r: Vector)
        requires
            0 < len < 5,
        ensures
            r == Vector::make(arr@[0] as int, arr@[1] as int, arr@[2] as int, arr@[3] as int, len as int),
    {
        Vector { e0: arr[0], e1: arr[1], e2: arr[2], e3: arr[3], declared: len }
    }

    /// Returns a vector created from a `Vec` holding exactly four mantissas.
    pub fn from_vec(vec: Vec<i64>) -> (r: Vector)
        requires
            vec@.len() == 4,
        ensures
            r == Vector::make(vec@[0] as int, vec@[1] as int, vec@[2] as int, vec@[3] as int, 4),
    {
        Vector { e0: vec[0], e1: vec[1], e2: vec[2], e3: vec[3], declared: 4 }
    }

    /// Returns a vector of length 3 and with values `x`, `y`, and `z`.
    pub fn from_3(x: i64, y: i64, z: i64) -> (r: Vector)
        ensures
            r == Vector::make(x as int, y as int, z as int, 0, 3),
    {
        Vector { e0: x, e1: y, e2: z, e3: 0, declared: 3 }
    }

    /// Returns the declared length of the vector.
    pub fn len(&self) -> (r: usize)
        ensures
            r as int == self.dlen(),
    {
        self.declared
    }

    /// Returns true if the vector is empty, which the constructors never
    /// produce.
    pub fn is_empty(&self) -> (r: bool)
        ensures
            r == (self.dlen() == 0),
    {
        self.declared == 0
    }
}

/// The running dot product over the first `n` components: each product and
/// each partial sum is a saturating fixed-point operation, in the order the
/// loop performs them.
pub open spec fn dot_upto(a: Vector, b: Vector, n: int) -> int
    decreases n,
{
    if n <= 0 {
        0
    } else {
        fx_add_spec(dot_upto(a, b, n - 1), fx_mul_spec(a.at(n - 1), b.at(n - 1)))
    }
}

/// The dot product of two vectors over their common declared length.
pub open spec fn dot_spec(a: Vector, b: Vector) -> int {
    dot_upto(a, b, a.dlen())
}

/// Element-wise sum.
pub open spec fn vadd_spec(a: Vector, b: Vector) -> Vector {
    Vector::make(
        fx_add_spec(a.at(0), b.at(0)),
        fx_add_spec(a.at(1), b.at(1)),
        fx_add_spec(a.at(2), b.at(2)),
        fx_add_spec(a.at(3), b.at(3)),
        a.dlen(),
    )
}

/// Element-wise difference.
pub open spec fn vsub_spec(a: Vector, b: Vector) -> Vector {
    Vector::make(
        fx_sub_spec(a.at(0), b.at(0)),
        fx_sub_spec(a.at(1), b.at(1)),
        fx_sub_spec(a.at(2), b.at(2)),
        fx_sub_spec(a.at(3), b.at(3)),
        a.dlen(),
    )
}

/// Element-wise product.
pub open spec fn vmul_spec(a: Vector, b: Vector) -> Vector {
    Vector::make(
        fx_mul_spec(a.at(0), b.at(0)),
        fx_mul_spec(a.at(1), b.at(1)),
        fx_mul_spec(a.at(2), b.at(2)),
        fx_mul_spec(a.at(3), b.at(3)),
        a.dlen(),
    )
}

/// Element-wise quotient.
pub open spec fn vdiv_spec(a: Vector, b: Vector) -> Vector {
    Vector::make(
        fx_div_spec(a.at(0), b.at(0)),
        fx_div_spec(a.at(1), b.at(1)),
        fx_div_spec(a.at(2), b.at(2)),
        fx_div_spec(a.at(3), b.at(3)),
        a.dlen(),
    )
}

/// Element-wise negation.
pub open spec fn vneg_spec(a: Vector) -> Vector {
    Vector::make(
        fx_neg_spec(a.at(0)),
        fx_neg_spec(a.at(1)),
        fx_neg_spec(a.at(2)),
        fx_neg_spec(a.at(3)),
        a.dlen(),
    )
}

/// Normalization: every component divided by the vector's own magnitude.
pub open spec fn norm_spec(a: Vector) -> Vector {
    let mag = fx_sqrt_spec(dot_spec(a, a));
    Vector::make(
        fx_div_spec(a.at(0), mag),
        fx_div_spec(a.at(1), mag),
        fx_div_spec(a.at(2), mag),
        fx_div_spec(a.at(3), mag),
        a.dlen(),
    )
}

/// A scalar clamped into `[min, max]`, testing the bounds in the order the
/// element-wise clamp does.
pub open spec fn clamp1_spec(x: int, min: int, max: int) -> int {
    if x < min {
        min
    } else if x <= max {
        x
    } else {
        max
    }
}

/// Element-wise clamp into `[min, max]`.
pub open spec fn clamp_spec(a: Vector, min: int, max: int) -> Vector {
    Vector::make(
        clamp1_spec(a.at(0), min, max),
        clamp1_spec(a.at(1), min, max),
        clamp1_spec(a.at(2), min, max),
        clamp1_spec(a.at(3), min, max),
        a.dlen(),
    )
}

/// Element-wise minimum.
pub open spec fn vmin_spec(a: Vector, b: Vector) -> Vector {
    Vector::make(
        if a.at(0) < b.at(0) { a.at(0) } else { b.at(0) },
        if a.at(1) < b.at(1) { a.at(1) } else { b.at(1) },
        if a.at(2) < b.at(2) { a.at(2) } else { b.at(2) },
        if a.at(3) < b.at(3) { a.at(3) } else { b.at(3) },
        a.dlen(),
    )
}

/// Element-wise maximum.
pub open spec fn vmax_spec(a: Vector, b: Vector) -> Vector {
    Vector::make(
        if a.at(0) > b.at(0) { a.at(0) } else { b.at(0) },
        if a.at(1) > b.at(1) { a.at(1) } else { b.at(1) },
        if a.at(2) > b.at(2) { a.at(2) } else { b.at(2) },
        if a.at(3) > b.at(3) { a.at(3) } else { b.at(3) },
        a.dlen(),
    )
}

/// Reflection of `i` off a surface with normal `n`:
/// `2 * n * dot(n, i) - i`, each step a saturating fixed-point operation.
pub open spec fn refl_spec(i: Vector, n: Vector) -> Vector {
    let s = fx_mul_spec(dot_spec(n, i), 2 * FX_ONE);
    vsub_spec(vmul_spec(Vector::make(s, s, s, s, i.dlen()), n), i)
}

/// Linear interpolation `a * f + b * (1 - f)` with `f` clamped to the unit
/// interval.
pub open spec fn lerp_spec(a: Vector, b: Vector, f: int) -> Vector {
    let fc = clamp1_spec(f, 0, FX_ONE as int);
    vadd_spec(
        vmul_spec(a, Vector::make(fc, fc, fc, fc, 3)),
        vmul_spec(b, Vector::make(FX_ONE - fc, FX_ONE - fc, FX_ONE - fc, FX_ONE - fc, 3)),
    )
}

/// Equality as the hand-written `PartialEq` decides it: the components up
/// to the left operand's declared length agree (the four slots bound it).
pub open spec fn vec_eq_spec(a: Vector, b: Vector) -> bool {
    forall|i: int| 0 <= i < a.dlen() && i < 4 ==> a.at(i) == b.at(i)
}

impl Vector {
    /// Returns the dot product of `self` and `rhs`. Both vectors must have
    /// the same declared length, which the four slots bound.
    pub fn dot(self, rhs: Vector) -> (r: i64)
        requires
            self.dlen() == rhs.dlen(),
            self.dlen() <= 4,
        ensures
            r as int == dot_spec(self, rhs),
    {
        let mut sum: i64 = 0;
        let mut i: usize = 0;
        while i < self.declared
            invariant
                0 <= i <= self.declared <= 4,
                sum as int == dot_upto(self, rhs, i as int),
        decreases self.declared - i,
        {
            sum = fx_add(sum, fx_mul(self.comp(i), rhs.comp(i)));
            i = i + 1;
        }
        sum
    }

    /// Returns the normalized version of `self`.
    pub fn norm(self) -> (r: Vector)
        requires
            self.dlen() <= 4,
        ensures
            r == norm_spec(self),
    {
        let mag = fx_sqrt(self.dot(self));
        Vector {
            e0: fx_div(self.e0, mag),
            e1: fx_div(self.e1, mag),
            e2: fx_div(self.e2, mag),
            e3: fx_div(self.e3, mag),
            declared: self.declared,
        }
    }

    /// Returns a vector with all elements clamped to the range `[min, max]`.
    pub fn clamp(self, min: i64, max: i64) -> (r: Vector)
        ensures
            r == clamp_spec(self, min as int, max as int),
    {
        Vector {
            e0: clamp1(self.e0, min, max),
            e1: clamp1(self.e1, min, max),
            e2: clamp1(self.e2, min, max),
            e3: clamp1(self.e3, min, max),
            declared: self.declared,
        }
    }

    /// Returns the smaller of two vectors, element-wise.
    pub fn min(self, rhs: Vector) -> (r: Vector)
        ensures
            r == vmin_spec(self, rhs),
    {
        Vector {
            e0: if self.e0 < rhs.e0 { self.e0 } else { rhs.e0 },
            e1: if self.e1 < rhs.e1 { self.e1 } else { rhs.e1 },
            e2: if self.e2 < rhs.e2 { self.e2 } else { rhs.e2 },
            e3: if self.e3 < rhs.e3 { self.e3 } else { rhs.e3 },
            declared: self.declared,
        }
    }

    /// Returns the larger of two vectors, element-wise.
    pub fn max(self, rhs: Vector) -> (r: Vector)
        ensures
            r == vmax_spec(self, rhs),
    {
        Vector {
            e0: if self.e0 > rhs.e0 { self.e0 } else { rhs.e0 },
            e1: if self.e1 > rhs.e1 { self.e1 } else { rhs.e1 },
            e2: if self.e2 > rhs.e2 { self.e2 } else { rhs.e2 },
            e3: if self.e3 > rhs.e3 { self.e3 } else { rhs.e3 },
            declared: self.declared,
        }
    }

    /// Returns the reflection of `i` off a surface with the normal `n`.
    /// `i` and `n` should point in the same general direction and must have
    /// the same declared length.
    pub fn refl(i: Vector, n: Vector) -> (r: Vector)
        requires
            i.dlen() == n.dlen(),
            0 < i.dlen() <= 4,
        ensures
            r == refl_spec(i, n),
    {
        let s = fx_mul(n.dot(i), 2 * FX_ONE);
        Vector::from_s(s, i.len()).mul(n).sub(i)
    }

    /// Returns the linear interpolation of `a` and `b` according to the
    /// equation `a * f + b * (1 - f)`, with `f` clamped to `[0, 1]`.
    pub fn lerp(a: Vector, b: Vector, f: i64) -> (r: Vector)
        requires
            a.dlen() == 3,
            b.dlen() == 3,
        ensures
            r == lerp_spec(a, b, f as int),
    {
        let fc = clamp1(f, 0, FX_ONE);
        a.mul(Vector::from_s(fc, 3)).add(b.mul(Vector::from_s(FX_ONE - fc, 3)))
    }

    /// Element-wise sum; both operands must have the same declared length.
    pub fn add(self, rhs: Vector) -> (r: Vector)
        requires
            self.dlen() == rhs.dlen(),
        ensures
            r == vadd_spec(self, rhs),
    {
        Vector {
            e0: fx_add(self.e0, rhs.e0),
            e1: fx_add(self.e1, rhs.e1),
            e2: fx_add(self.e2, rhs.e2),
            e3: fx_add(self.e3, rhs.e3),
            declared: self.declared,
        }
    }

    /// Element-wise difference; both operands must have the same declared
    /// length.
    pub fn sub(self, rhs: Vector) -> (r: Vector)
        requires
            self.dlen() == rhs.dlen(),
        ensures
            r == vsub_spec(self, rhs),
    {
        Vector {
            e0: fx_sub(self.e0, rhs.e0),
            e1: fx_sub(self.e1, rhs.e1),
            e2: fx_sub(self.e2, rhs.e2),
            e3: fx_sub(self.e3, rhs.e3),
            declared: self.declared,
        }
    }

    /// Element-wise product; both operands must have the same declared
    /// length.
    pub fn mul(self, rhs: Vector) -> (r: Vector)
        requires
            self.dlen() == rhs.dlen(),
        ensures
            r == vmul_spec(self, rhs),
    {
        Vector {
            e0: fx_mul(self.e0, rhs.e0),
            e1: fx_mul(self.e1, rhs.e1),
            e2: fx_mul(self.e2, rhs.e2),
            e3: fx_mul(self.e3, rhs.e3),
            declared: self.declared,
        }
    }

    /// Element-wise quotient; both operands must have the same declared
    /// length.
    pub fn div(self, rhs: Vector) -> (r: Vector)
        requires
            self.dlen() == rhs.dlen(),
        ensures
            r == vdiv_spec(self, rhs),
    {
        Vector {
            e0: fx_div(self.e0, rhs.e0),
            e1: fx_div(self.e1, rhs.e1),
            e2: fx_div(self.e2, rhs.e2),
            e3: fx_div(self.e3, rhs.e3),
            declared: self.declared,
        }
    }

    /// Element-wise negation.
    pub fn neg(self) -> (r: Vector)
        ensures
            r == vneg_spec(self),
    {
        Vector {
            e0: fx_neg(self.e0),
            e1: fx_neg(self.e1),
            e2: fx_neg(self.e2),
            e3: fx_neg(self.e3),
            declared: self.declared,
        }
    }

    /// Component `i` of the vector.
    fn comp(&self, i: usize) -> (r: i64)
        requires
            i < 4,
        ensures
            r as int == self.at(i as int),
    {
        if i == 0 {
            self.e0
        } else if i == 1 {
            self.e1
        } else if i == 2 {
            self.e2
        } else {
            self.e3
        }
    }
}

/// A scalar clamped into `[min, max]`.
fn clamp1(x: i64, min: i64, max: i64) -> (r: i64)
    ensures
        r as int == clamp1_spec(x as int, min as int, max as int),
{
    if x < min {
        min
    } else if x <= max {
        x
    } else {
        max
    }
}

impl PartialEq for Vector {
    /// Two vectors are equal when their components agree up to the left
    /// operand's declared length (the four slots bound the walk).
    fn eq(&self, other: &Vector) -> (r: bool) {
        let n = if self.declared <= 4 {
            self.declared
        } else {
            4
        };
        let mut i: usize = 0;
        while i < n
            invariant
                0 <= i <= n <= 4,
                n == if self.dlen() <= 4 { self.dlen() } else { 4 as int },
                forall|j: int| 0 <= j < i ==> self.at(j) == other.at(j),
            decreases n - i,
        {
            if self.comp(i) != other.comp(i) {
                return false;
            }
            i = i + 1;
        }
        true
    }
}

impl vstd::std_specs::cmp::PartialEqSpecImpl for Vector {
    open spec fn obeys_eq_spec() -> bool {
        true
    }

    open spec fn eq_spec(&self, other: &Vector) -> bool {
        vec_eq_spec(*self, *other)
    }
}

/// Each partial dot product of a vector with itself is non-negative.
proof fn lemma_dot_upto_self_nonneg(v: Vector, n: int)
    ensures
        dot_upto(v, v, n) >= 0,
    decreases n,
{
    if n > 0 {
        lemma_dot_upto_self_nonneg(v, n - 1);
        let x = v.at(n - 1);
        assert(x * x >= 0) by (nonlinear_arith);
    }
}

/// The dot product of any vector with itself is non-negative.
pub proof fn lemma_dot_self_nonneg(v: Vector)
    ensures
        dot_spec(v, v) >= 0,
{
    lemma_dot_upto_self_nonneg(v, v.dlen());
}

/// Each term of a self dot product is bounded by the whole partial sum.
proof fn lemma_dot_upto_self_term_le(v: Vector, n: int, k: int)
    requires
        0 <= k < n,
    ensures
        fx_mul_spec(v.at(k), v.at(k)) <= dot_upto(v, v, n),
    decreases n,
{
    lemma_dot_upto_self_nonneg(v, n - 1);
    let x = v.at(n - 1);
    assert(x * x >= 0) by (nonlinear_arith);
    if k < n - 1 {
        lemma_dot_upto_self_term_le(v, n - 1, k);
    }
}

/// The exact sum of squared component mantissas over the first `n`
/// components.
spec fn sumsq(v: Vector, n: int) -> int
    decreases n,
{
    if n <= 0 {
        0
    } else {
        sumsq(v, n - 1) + v.at(n - 1) * v.at(n - 1)
    }
}

/// For component mantissas up to a million units, the fixed-point self
/// dot product never saturates and brackets the exact sum of squares to
/// within one unit per component.
proof fn lemma_dot_upto_self_brackets(v: Vector, n: int)
    requires
        0 <= n <= 4,
        forall|i: int|
            0 <= i < n ==> -1_000_000_000_000 <= #[trigger] v.at(i) <= 1_000_000_000_000,
    ensures
        0 <= dot_upto(v, v, n) <= n * 1_000_000_000_000_000_000,
        (FX_ONE as int) * dot_upto(v, v, n) <= sumsq(v, n),
        sumsq(v, n) <= (FX_ONE as int) * dot_upto(v, v, n) + n * (FX_ONE as int),
    decreases n,
{
    let one = FX_ONE as int;
    if n > 0 {
        lemma_dot_upto_self_brackets(v, n - 1);
        let e = v.at(n - 1);
        assert(0 <= e * e <= 1_000_000_000_000 * 1_000_000_000_000) by (nonlinear_arith)
            requires
                -1_000_000_000_000 <= e <= 1_000_000_000_000,
        ;
        let q = (e * e) / one;
        vstd::arithmetic::div_mod::lemma_fundamental_div_mod(e * e, one);
        vstd::arithmetic::div_mod::lemma_mod_pos_bound(e * e, one);
        assert(tdiv(e * e, one) == q);
        assert(0 <= q <= 1_000_000_000_000_000_000);
        assert(fx_mul_spec(e, e) == q);
        assert(fx_add_spec(dot_upto(v, v, n - 1), q) == dot_upto(v, v, n - 1) + q);
    }
}

/// One normalized component: the quotient of a component mantissa (at
/// most one more than the magnitude) against the magnitude stays within
/// one unit plus one, and its square brackets the scaled exact square.
/// Returns the signed quotient and its absolute value.
proof fn lemma_norm_comp_bracket(e: int, mag: int) -> (r: (int, int))
    requires
        mag >= FX_ONE as int,
        -(mag + 1) <= e <= mag + 1,
    ensures
        r.0 == sat(tdiv(e * (FX_ONE as int), mag)),
        r.1 == (if r.0 < 0 {
            -r.0
        } else {
            r.0
        }),
        0 <= r.1 <= FX_ONE + 1,
        mag * mag * (r.1 * r.1) <= (e * e) * 1_000_000_000_000,
        (e * e) * 1_000_000_000_000 < mag * mag * ((r.1 + 1) * (r.1 + 1)),
        r.0 * r.0 == r.1 * r.1,
        -(FX_ONE as int + 1) <= r.0 <= FX_ONE as int + 1,
{
    let one = FX_ONE as int;
    let a = if e < 0 {
        -e
    } else {
        e
    };
    let q = (a * one) / mag;
    assert(a * one >= 0) by (nonlinear_arith)
        requires
            a >= 0 && one > 0,
    ;
    vstd::arithmetic::div_mod::lemma_fundamental_div_mod(a * one, mag);
    vstd::arithmetic::div_mod::lemma_mod_pos_bound(a * one, mag);
    vstd::arithmetic::div_mod::lemma_div_pos_is_pos(a * one, mag);
    assert(a * one <= mag * (one + 1)) by (nonlinear_arith)
        requires
            0 <= a <= mag + 1,
            mag >= one >= 1,
    ;
    assert(q <= one + 1) by (nonlinear_arith)
        requires
            mag * q + (a * one) % mag == a * one,
            0 <= (a * one) % mag,
            a * one <= mag * (one + 1),
            mag > 0,
    ;
    // the truncated signed quotient is the signed magnitude quotient
    if e < 0 {
        assert(e * one < 0) by (nonlinear_arith)
            requires
                e < 0 && one > 0,
        ;
        assert(-(e * one) == a * one) by (nonlinear_arith)
            requires
                a == -e,
        ;
        assert(tdiv(e * one, mag) == -q);
    } else if e > 0 {
        assert(e * one > 0) by (nonlinear_arith)
            requires
                e > 0 && one > 0,
        ;
        assert(tdiv(e * one, mag) == q);
    } else {
        assert(tdiv(e * one, mag) == 0);
        assert(q == 0) by (nonlinear_arith)
            requires
                mag * q + (a * one) % mag == a * one,
                0 <= (a * one) % mag < mag,
                a == 0,
                one > 0,
                mag > 0,
                q >= 0,
        ;
    }
    let ni = sat(tdiv(e * one, mag));
    assert(ni == tdiv(e * one, mag));
    assert(mag * (q + 1) == mag * q + mag) by (nonlinear_arith);
    assert(mag * q <= a * one < mag * (q + 1));
    assert(mag * mag * (q * q) <= (a * one) * (a * one)) by (nonlinear_arith)
        requires
            0 <= mag * q <= a * one,
    ;
    assert((a * one) * (a * one) < mag * mag * ((q + 1) * (q + 1))) by (nonlinear_arith)
        requires
            0 <= a * one < mag * (q + 1),
    ;
    assert((a * one) * (a * one) == (e * e) * 1_000_000_000_000) by (nonlinear_arith)
        requires
            a == (if e < 0 {
                -e
            } else {
                e
            }),
            one == 1_000_000,
    ;
    assert(ni * ni == q * q) by (nonlinear_arith)
        requires
            ni == q || ni == -q,
    ;
    (ni, q)
}

/// Summed over the counted components, the scaled exact squares lie
/// between the magnitude-squared multiples of the normalized squares and
/// the same plus a two-units-per-component correction.
proof fn lemma_norm_sum_brackets(v: Vector, w: Vector, mag: int, n: int)
    requires
        0 <= n <= 4,
        mag >= FX_ONE as int,
        forall|i: int|
            0 <= i < n ==> #[trigger] w.at(i) == sat(tdiv(v.at(i) * (FX_ONE as int), mag)),
        forall|i: int| 0 <= i < n ==> -(mag + 1) <= #[trigger] v.at(i) <= mag + 1,
    ensures
        0 <= sumsq(w, n),
        forall|i: int|
            0 <= i < n ==> -(FX_ONE as int + 1) <= #[trigger] w.at(i) <= FX_ONE as int + 1,
        mag * mag * sumsq(w, n) <= sumsq(v, n) * 1_000_000_000_000,
        sumsq(v, n) * 1_000_000_000_000 <= mag * mag * (sumsq(w, n) + n * (2 * (FX_ONE as int
            + 1)) + n),
    decreases n,
{
    let one = FX_ONE as int;
    if n == 0 {
        assert(mag * mag * 0 == 0) by (nonlinear_arith);
    } else {
        lemma_norm_sum_brackets(v, w, mag, n - 1);
        let e = v.at(n - 1);
        let r = lemma_norm_comp_bracket(e, mag);
        let ni = r.0;
        let m = r.1;
        assert(w.at(n - 1) == ni);
        let sw0 = sumsq(w, n - 1);
        let sv0 = sumsq(v, n - 1);
        assert(sumsq(w, n) == sw0 + ni * ni);
        assert(sumsq(v, n) == sv0 + e * e);
        // lower side
        assert(mag * mag * (sw0 + ni * ni) == mag * mag * sw0 + mag * mag * (ni * ni))
            by (nonlinear_arith);
        assert((sv0 + e * e) * 1_000_000_000_000 == sv0 * 1_000_000_000_000 + (e * e)
            * 1_000_000_000_000) by (nonlinear_arith);
        // upper side: unfold the squared upper bracket and absorb the
        // cross terms into the per-component correction
        assert(mag * mag * ((m + 1) * (m + 1)) == mag * mag * (m * m) + mag * mag * (2 * m + 1))
            by (nonlinear_arith);
        assert(mag * mag * (2 * m + 1) <= mag * mag * (2 * (one + 1) + 1)) by (nonlinear_arith)
            requires
                m <= one + 1,
                mag * mag >= 0,
        ;
        assert(mag * mag * (sw0 + (n - 1) * (2 * (one + 1)) + (n - 1)) + mag * mag * (m * m) + mag
            * mag * (2 * (one + 1) + 1) == mag * mag * ((sw0 + m * m) + n * (2 * (one + 1)) + n))
            by (nonlinear_arith);
        assert(mag * mag >= 0) by (nonlinear_arith);
    }
}

/// Normalizing a vector whose magnitude is at least one and whose
/// components are at most a million units gives a vector whose self dot
/// product lies within sixteen millionths of one. (Below unit magnitude
/// the fixed-point truncation error dominates and no such tolerance
/// holds.)
pub proof fn lemma_norm_unit_dot(v: Vector)
    requires
        0 < v.dlen() <= 4,
        forall|i: int|
            0 <= i < 4 ==> -1_000_000_000_000 <= #[trigger] v.at(i) <= 1_000_000_000_000,
        dot_spec(v, v) >= FX_ONE as int,
    ensures
        FX_ONE - 16 <= dot_spec(norm_spec(v), norm_spec(v)) <= FX_ONE + 16,
{
    let one = FX_ONE as int;
    let ll = v.dlen();
    let d = dot_spec(v, v);
    lemma_dot_upto_self_brackets(v, ll);
    let a_sum = sumsq(v, ll);
    let dd = d * one;
    assert(dd >= one * one) by (nonlinear_arith)
        requires
            dd == d * one,
            d >= one > 0,
    ;
    let mag = crate::fx::sqrt_floor(dd as nat) as int;
    crate::fx::lemma_sqrt_floor_bounds(dd as nat);
    assert(mag * mag <= dd < (mag + 1) * (mag + 1));
    assert(mag >= one) by (nonlinear_arith)
        requires
            (mag + 1) * (mag + 1) > one * one,
            mag >= 0,
            one >= 1,
    ;
    assert(mag * one <= mag * mag) by (nonlinear_arith)
        requires
            mag >= one > 0,
    ;
    let w = norm_spec(v);
    assert(crate::fx::fx_sqrt_spec(d) == mag);
    assert(w.dlen() == ll);
    // each counted component is bounded by the magnitude plus one
    assert forall|i: int| 0 <= i < ll implies -(mag + 1) <= #[trigger] v.at(i) <= mag + 1 by {
        lemma_dot_upto_self_term_le(v, ll, i);
        let e = v.at(i);
        let q = (e * e) / one;
        assert(0 <= e * e <= 1_000_000_000_000 * 1_000_000_000_000) by (nonlinear_arith)
            requires
                -1_000_000_000_000 <= e <= 1_000_000_000_000,
        ;
        vstd::arithmetic::div_mod::lemma_fundamental_div_mod(e * e, one);
        vstd::arithmetic::div_mod::lemma_mod_pos_bound(e * e, one);
        assert(fx_mul_spec(e, e) == q);
        assert(q <= d);
        assert(e * e < one * (d + 1));
        assert(e * e < (mag + 2) * (mag + 2)) by (nonlinear_arith)
            requires
                e * e < one * (d + 1),
                one * (d + 1) == d * one + one,
                d * one < (mag + 1) * (mag + 1),
                mag >= one,
                one == 1_000_000,
        ;
        assert(-(mag + 1) <= e <= mag + 1) by (nonlinear_arith)
            requires
                e * e < (mag + 2) * (mag + 2),
                mag + 2 > 0,
        ;
    }
    // each normalized component is the truncated quotient by the magnitude
    assert forall|i: int| 0 <= i < ll implies #[trigger] w.at(i) == sat(
        tdiv(v.at(i) * one, mag),
    ) by {
        assert(fx_div_spec(v.at(i), mag) == sat(tdiv(v.at(i) * one, mag)));
    }
    lemma_norm_sum_brackets(v, w, mag, ll);
    lemma_dot_upto_self_brackets(w, ll);
    let s = dot_spec(w, w);
    let n2 = sumsq(w, ll);
    let m2 = mag * mag;
    // one * s <= n2 < one * s + ll * one
    // one * d <= a_sum < one * d + ll * one
    // m2 * n2 <= a_sum * 10^12 <= m2 * (n2 + ll * (2 * (one + 1)) + ll)
    assert(s <= one + 16) by {
        if s >= one + 17 {
            assert(n2 >= one * (one + 17));
            assert((mag + 1) * (mag + 1) == mag * mag + 2 * mag + 1) by (nonlinear_arith);
            assert(m2 > dd - 2 * mag - 1);
            assert(dd - 2 * mag - 1 >= 0) by (nonlinear_arith)
                requires
                    mag * one <= dd,
                    mag >= one,
                    one == 1_000_000,
            ;
            assert(m2 * n2 >= (dd - 2 * mag - 1) * (one * (one + 17))) by (nonlinear_arith)
                requires
                    n2 >= one * (one + 17) >= 0,
                    m2 >= dd - 2 * mag - 1 >= 0,
            ;
            assert((dd - 2 * mag - 1) * (one * (one + 17)) == dd * (one * one) + 17 * one * dd - (2
                * mag + 1) * (one * (one + 17))) by (nonlinear_arith);
            assert((2 * mag + 1) * (one * (one + 17)) <= 2 * (one + 17) * dd + one * (one + 17))
                by (nonlinear_arith)
                requires
                    mag * one <= dd,
                    mag >= 0,
                    one >= 1,
            ;
            assert(a_sum * 1_000_000_000_000 <= (dd + 4 * one) * 1_000_000_000_000)
                by (nonlinear_arith)
                requires
                    a_sum <= dd + 4 * one,
            ;
            assert((dd + 4 * one) * 1_000_000_000_000 == dd * 1_000_000_000_000
                + 4_000_000_000_000_000_000) by (nonlinear_arith)
                requires
                    one == 1_000_000,
            ;
            assert(dd * (one * one) == dd * 1_000_000_000_000) by (nonlinear_arith)
                requires
                    one == 1_000_000,
            ;
            // m2 * n2 is sandwiched: the lower estimate exceeds the upper
            assert(17 * one * dd - 2 * (one + 17) * dd - one * (one + 17)
                <= 4_000_000_000_000_000_000) by {
                assert(m2 * n2 <= a_sum * 1_000_000_000_000);
            }
            assert((17 * one - 2 * one - 34) * dd == 17 * one * dd - 2 * (one + 17) * dd)
                by (nonlinear_arith);
            assert((17 * one - 2 * one - 34) * dd >= (17 * one - 2 * one - 34) * (one * one))
                by (nonlinear_arith)
                requires
                    dd >= one * one,
                    17 * one - 2 * one - 34 >= 0,
            ;
            assert(false);
        }
    }
    assert(s >= one - 16) by {
        if s <= one - 17 {
            assert(n2 <= one * s + ll * one);
            assert(one * s <= one * (one - 17));
            assert(n2 + ll * (2 * (one + 1)) + ll <= one * one - 5 * one + 12) by (nonlinear_arith)
                requires
                    n2 <= one * (one - 17) + ll * one,
                    ll <= 4,
                    one == 1_000_000,
            ;
            assert(m2 * (n2 + ll * (2 * (one + 1)) + ll) <= m2 * (one * one - 5 * one + 12))
                by (nonlinear_arith)
                requires
                    n2 + ll * (2 * (one + 1)) + ll <= one * one - 5 * one + 12,
                    m2 >= 0,
            ;
            assert(m2 * (one * one - 5 * one + 12) <= dd * (one * one - 5 * one + 12))
                by (nonlinear_arith)
                requires
                    m2 <= dd,
                    one * one - 5 * one + 12 >= 0,
            ;
            assert(dd * (one * one) <= a_sum * 1_000_000_000_000) by (nonlinear_arith)
                requires
                    dd <= a_sum,
                    one == 1_000_000,
            ;
            assert(dd * (one * one) <= dd * (one * one - 5 * one + 12));
            assert(dd * (one * one - 5 * one + 12) - dd * (one * one) == -(dd * (5 * one - 12)))
                by (nonlinear_arith);
            assert(dd * (5 * one - 12) >= (one * one) * (5 * one - 12)) by (nonlinear_arith)
                requires
                    dd >= one * one,
                    5 * one - 12 >= 0,
            ;
            assert((one * one) * (5 * one - 12) > 0) by (nonlinear_arith)
                requires
                    one == 1_000_000,
            ;
            assert(false);
        }
    }
}

/// Reflecting a vector of unit magnitude about itself gives the vector
/// back: the self-reflection identity `refl(n, n) == n`, in the sense of
/// this type's equality.
pub proof fn lemma_refl_self(n: Vector)
    requires
        0 < n.dlen() <= 4,
        dot_spec(n, n) == FX_ONE as int,
    ensures
        vec_eq_spec(refl_spec(n, n), n),
{
    let one = FX_ONE as int;
    // The doubled dot product: 2 * 10^6 * 10^6 rescaled by 10^6 is exactly
    // 2 * 10^6.
    let s = fx_mul_spec(one, 2 * one);
    vstd::arithmetic::div_mod::lemma_div_multiples_vanish(2 * one, one);
    assert(s == 2 * one);
    let r = refl_spec(n, n);
    assert forall|k: int| 0 <= k < r.dlen() && k < 4 implies r.at(k) == n.at(k) by {
        let x = v_at_bounded(n, k);
        // The doubled-scalar product 2 * 10^6 * x rescaled by 10^6 is
        // exactly 2 * x, and 2 * x - x saturates nowhere.
        assert(tdiv(2 * one * x, one) == 2 * x) by {
            if x >= 0 {
                assert(2 * one * x == (2 * x) * one) by (nonlinear_arith);
                vstd::arithmetic::div_mod::lemma_div_by_multiple(2 * x, one);
            } else {
                assert(-(2 * one * x) == (-(2 * x)) * one) by (nonlinear_arith);
                vstd::arithmetic::div_mod::lemma_div_by_multiple(-(2 * x), one);
            }
        };
    };
}

/// For a vector of unit magnitude, each counted component's mantissa is at
/// most one unit in magnitude; returns the component.
proof fn v_at_bounded(n: Vector, k: int) -> (x: int)
    requires
        0 <= k < n.dlen() <= 4,
        dot_spec(n, n) == FX_ONE as int,
    ensures
        x == n.at(k),
        -(FX_ONE as int) <= x <= FX_ONE as int,
{
    let one = FX_ONE as int;
    let x = n.at(k);
    lemma_dot_upto_self_term_le(n, n.dlen(), k);
    assert(x * x >= 0) by (nonlinear_arith);
    // The term is sat(tdiv(x * x, one)) <= one, and the truncation of a
    // non-negative value is bounded only if the value itself is.
    assert(tdiv(x * x, one) <= one);
    if x > 0 {
        vstd::arithmetic::div_mod::lemma_fundamental_div_mod(x * x, one);
        assert(x * x < (one + 1) * one) by (nonlinear_arith)
            requires
                (x * x) / one <= one,
                x * x == one * ((x * x) / one) + (x * x) % one,
                0 <= (x * x) % one < one,
        ;
        assert(x <= one) by (nonlinear_arith)
            requires
                x > 0,
                one > 0,
                x * x < (one + 1) * one,
        ;
    } else if x < 0 {
        vstd::arithmetic::div_mod::lemma_fundamental_div_mod(x * x, one);
        assert(x * x < (one + 1) * one) by (nonlinear_arith)
            requires
                (x * x) / one <= one,
                x * x == one * ((x * x) / one) + (x * x) % one,
                0 <= (x * x) % one < one,
        ;
        assert(-x <= one) by (nonlinear_arith)
            requires
                x < 0,
                one > 0,
                x * x < (one + 1) * one,
        ;
    }
    x
}

} // verus!
