//! Quintic Hermite segments.
//!
//! A segment joins two consecutive waypoints. Its six boundary vectors, in the order
//! `[start.point, start tangent, start.curvature, end.point, end tangent,
//! end.curvature]` (tangents already scaled by the chord length), are mapped through a
//! fixed basis-change matrix to the monomial coefficients of `t^5, t^4, ..., t^0`, one
//! polynomial per axis. The matrix has halves among its entries; it is kept here
//! multiplied by `BASIS_SCALE` so that every entry is an integer.
//!
//! The spec functions below evaluate that polynomial in exact arithmetic, which is
//! what the laws at the end of this module are stated over.

use vstd::arithmetic::mul::{
    lemma_mul_is_associative,
    lemma_mul_is_commutative,
    lemma_mul_is_distributive_add,
    lemma_mul_is_distributive_add_other_way,
    lemma_mul_unary_negation,
};
use vstd::prelude::*;

verus! {

/// The factor by which the stored basis entries exceed the true ones.
pub const BASIS_SCALE: i64 = 2;

/// The entry of `(c0, ..., c5)` at position `k`.
pub open spec fn pick(k: int, c0: int, c1: int, c2: int, c3: int, c4: int, c5: int) -> int {
    if k == 0 {
        c0
    } else if k == 1 {
        c1
    } else if k == 2 {
        c2
    } else if k == 3 {
        c3
    } else if k == 4 {
        c4
    } else {
        c5
    }
}

/// Entry `(j, k)` of the basis-change matrix times `BASIS_SCALE`: the weight of
/// boundary vector `j` in the coefficient of `t^(5-k)`.
pub open spec fn basis(j: int, k: int) -> int {
    if j == 0 {
        pick(k, -12, 30, -20, 0, 0, 2)
    } else if j == 1 {
        pick(k, -6, 16, -12, 0, 2, 0)
    } else if j == 2 {
        pick(k, -1, 3, -3, 1, 0, 0)
    } else if j == 3 {
        pick(k, 12, -30, 20, 0, 0, 0)
    } else if j == 4 {
        pick(k, -6, 14, -8, 0, 0, 0)
    } else {
        pick(k, 1, -2, 1, 0, 0, 0)
    }
}

/// Entry `(row, col)` of the basis-change matrix, times `BASIS_SCALE`.
pub fn hermite_basis_entry(row: usize, col: usize) -> (r: i64)
    requires
        row < 6,
        col < 6,
    ensures
        r == basis(row as int, col as int),
{
    let entries: [i64; 6] = if row == 0 {
        [-12, 30, -20, 0, 0, 2]
    } else if row == 1 {
        [-6, 16, -12, 0, 2, 0]
    } else if row == 2 {
        [-1, 3, -3, 1, 0, 0]
    } else if row == 3 {
        [12, -30, 20, 0, 0, 0]
    } else if row == 4 {
        [-6, 14, -8, 0, 0, 0]
    } else {
        [1, -2, 1, 0, 0, 0]
    };
    entries[col]
}

/// The number of segments a list of `n` waypoints makes: one per consecutive pair,
/// none with fewer than two waypoints.
pub fn segment_count(n: usize) -> (r: usize)
    ensures
        r == (if n >= 2 { n - 1 } else { 0 }),
{
    if n >= 2 {
        n - 1
    } else {
        0
    }
}

/// `x` to the power `e`.
pub open spec fn power(x: int, e: int) -> int
    decreases e,
{
    if e <= 0 {
        1
    } else {
        x * power(x, e - 1)
    }
}

/// `e (e - 1) ... (e - d + 1)`: the factor that `d` derivatives bring down from `t^e`.
pub open spec fn falling(e: int, d: int) -> int
    decreases d,
{
    if d <= 0 {
        1
    } else {
        e * falling(e - 1, d - 1)
    }
}

/// The `d`-th derivative of the monomial `t^(5-k)` at `t = num / den`, multiplied by
/// `den^(5-d)` so that it is an integer.
pub open spec fn monomial(k: int, d: int, num: int, den: int) -> int {
    let e = 5 - k;
    if d > e {
        0
    } else {
        falling(e, d) * power(num, e - d) * power(den, k)
    }
}

/// The `d`-th derivative, at `t = num / den`, of the basis function that boundary
/// vector `j` is multiplied by, scaled as `monomial` is and by `BASIS_SCALE`.
pub open spec fn weight(j: int, d: int, num: int, den: int) -> int {
    basis(j, 0) * monomial(0, d, num, den) + basis(j, 1) * monomial(1, d, num, den) + basis(j, 2)
        * monomial(2, d, num, den) + basis(j, 3) * monomial(3, d, num, den) + basis(j, 4)
        * monomial(4, d, num, den) + basis(j, 5) * monomial(5, d, num, den)
}

/// The `d`-th derivative of one axis of the segment with boundary values `b`, at
/// `t = num / den`, multiplied by `BASIS_SCALE * den^(5-d)`: `d = 0` is the position,
/// `1` the velocity, `2` the acceleration, `3` the jerk.
pub open spec fn derivative(b: Seq<int>, d: int, num: int, den: int) -> int {
    b[0] * weight(0, d, num, den) + b[1] * weight(1, d, num, den) + b[2] * weight(2, d, num, den)
        + b[3] * weight(3, d, num, den) + b[4] * weight(4, d, num, den) + b[5] * weight(
        5,
        d,
        num,
        den,
    )
}

/// The planar cross product `u x v`.
pub open spec fn cross(ux: int, uy: int, vx: int, vy: int) -> int {
    ux * vy - uy * vx
}

/// A segment interpolates its boundary data: on each axis, the position at `t = 0` is
/// the start point and at `t = 1` the end point; the velocity there is the start and
/// end tangent, and the acceleration the start and end curvature vector.
#[verifier::nonlinear]
pub proof fn lemma_hermite_interpolates(b: Seq<int>)
    requires
        b.len() == 6,
    ensures
        derivative(b, 0, 0, 1) == BASIS_SCALE * b[0],
        derivative(b, 0, 1, 1) == BASIS_SCALE * b[3],
        derivative(b, 1, 0, 1) == BASIS_SCALE * b[1],
        derivative(b, 1, 1, 1) == BASIS_SCALE * b[4],
        derivative(b, 2, 0, 1) == BASIS_SCALE * b[2],
        derivative(b, 2, 1, 1) == BASIS_SCALE * b[5],
{
    reveal_with_fuel(power, 6);
    reveal_with_fuel(falling, 3);
    assert forall|d: int, t: int, j: int| 0 <= d <= 2 && 0 <= t <= 1 && 0 <= j < 6 implies
        #[trigger] weight(j, d, t, 1) == (if j == d + 3 * t { 2int } else { 0int }) by {
        assert(power(1, 1) == 1 && power(1, 2) == 1 && power(1, 3) == 1 && power(1, 4) == 1
            && power(1, 5) == 1);
        assert(power(0, 1) == 0 && power(0, 2) == 0 && power(0, 3) == 0 && power(0, 4) == 0
            && power(0, 5) == 0);
    }
}

/// On one axis, boundary data whose points are `p + a0 * x` and `p + a1 * x`, whose
/// tangents are `l0 * x` and `l1 * x` and whose curvature vectors are zero has every
/// derivative from the first on equal to `x` times that of `(a0, l0, 0, a1, l1, 0)`.
/// From the first derivative on, the basis functions of the start and end points
/// cancel: together they are constant.
#[verifier::nonlinear]
proof fn lemma_point_weights_cancel(d: int, num: int, den: int)
    requires
        d >= 1,
    ensures
        weight(3, d, num, den) == -weight(0, d, num, den),
{
    assert(monomial(5, d, num, den) == 0);
}

proof fn lemma_derivative_along_line(
    p: int,
    x: int,
    a0: int,
    l0: int,
    a1: int,
    l1: int,
    d: int,
    num: int,
    den: int,
)
    requires
        d >= 1,
    ensures
        derivative(seq![p + a0 * x, l0 * x, 0, p + a1 * x, l1 * x, 0], d, num, den) == x
            * derivative(seq![a0, l0, 0, a1, l1, 0], d, num, den),
{
    let b = seq![p + a0 * x, l0 * x, 0, p + a1 * x, l1 * x, 0];
    let s = seq![a0, l0, 0, a1, l1, 0];
    lemma_point_weights_cancel(d, num, den);
    let w0 = weight(0, d, num, den);
    let w1 = weight(1, d, num, den);
    let w2 = weight(2, d, num, den);
    let w4 = weight(4, d, num, den);
    let w5 = weight(5, d, num, den);
    let (b0, b1, b3, b4) = (b[0], b[1], b[3], b[4]);
    let zero = b[2];
    assert(zero == 0 && b[5] == 0 && s[2] == 0 && s[5] == 0);
    assert(zero * w2 == 0 && zero * w5 == 0) by (nonlinear_arith)
        requires
            zero == 0,
    ;
    assert(derivative(b, d, num, den) == b0 * w0 + b1 * w1 + b3 * (-w0) + b4 * w4);
    assert(derivative(s, d, num, den) == a0 * w0 + l0 * w1 + a1 * (-w0) + l1 * w4);
    lemma_line_identity(p, x, a0, l0, a1, l1, w0, w1, w4);
}

/// `(p + a0 x) w0 + l0 x w1 - (p + a1 x) w0 + l1 x w4 = x (a0 w0 + l0 w1 - a1 w0 + l1 w4)`.
proof fn lemma_line_identity(
    p: int,
    x: int,
    a0: int,
    l0: int,
    a1: int,
    l1: int,
    w0: int,
    w1: int,
    w4: int,
)
    ensures
        (p + a0 * x) * w0 + (l0 * x) * w1 + (p + a1 * x) * (-w0) + (l1 * x) * w4 == x * (a0 * w0
            + l0 * w1 + a1 * (-w0) + l1 * w4),
{
    lemma_mul_is_distributive_add_other_way(w0, p, a0 * x);
    lemma_mul_is_distributive_add_other_way(-w0, p, a1 * x);
    lemma_mul_unary_negation(p, w0);
    lemma_mul_is_associative(a0, x, w0);
    lemma_mul_is_associative(l0, x, w1);
    lemma_mul_is_associative(a1, x, -w0);
    lemma_mul_is_associative(l1, x, w4);
    lemma_mul_is_commutative(a0, x * w0);
    lemma_mul_is_commutative(l0, x * w1);
    lemma_mul_is_commutative(a1, x * (-w0));
    lemma_mul_is_commutative(l1, x * w4);
    lemma_mul_is_associative(x, w0, a0);
    lemma_mul_is_associative(x, w1, l0);
    lemma_mul_is_associative(x, -w0, a1);
    lemma_mul_is_associative(x, w4, l1);
    lemma_mul_is_commutative(w0, a0);
    lemma_mul_is_commutative(w1, l0);
    lemma_mul_is_commutative(-w0, a1);
    lemma_mul_is_commutative(w4, l1);
    lemma_mul_is_distributive_add(x, a0 * w0 + l0 * w1 + a1 * (-w0), l1 * w4);
    lemma_mul_is_distributive_add(x, a0 * w0 + l0 * w1, a1 * (-w0));
    lemma_mul_is_distributive_add(x, a0 * w0, l0 * w1);
}

/// Waypoints on one line, with tangents along the chord and zero curvature vectors,
/// make a straight segment: at every parameter `t = num / den` the velocity and the
/// acceleration are parallel, so the curvature (their cross product over `|v|^3`) is
/// zero wherever it is defined.
///
/// The line passes through `(px, py)` with direction `(dx, dy)`; the start and end
/// points sit at `a0` and `a1` along it, and the (chord-scaled) tangents are `l0` and
/// `l1` times the direction.
pub proof fn lemma_collinear_is_straight(
    px: int,
    py: int,
    dx: int,
    dy: int,
    a0: int,
    l0: int,
    a1: int,
    l1: int,
    num: int,
    den: int,
)
    ensures
        ({
            let bx = seq![px + a0 * dx, l0 * dx, 0, px + a1 * dx, l1 * dx, 0];
            let by = seq![py + a0 * dy, l0 * dy, 0, py + a1 * dy, l1 * dy, 0];
            cross(
                derivative(bx, 1, num, den),
                derivative(by, 1, num, den),
                derivative(bx, 2, num, den),
                derivative(by, 2, num, den),
            ) == 0
        }),
{
    let s = seq![a0, l0, 0, a1, l1, 0];
    lemma_derivative_along_line(px, dx, a0, l0, a1, l1, 1, num, den);
    lemma_derivative_along_line(py, dy, a0, l0, a1, l1, 1, num, den);
    lemma_derivative_along_line(px, dx, a0, l0, a1, l1, 2, num, den);
    lemma_derivative_along_line(py, dy, a0, l0, a1, l1, 2, num, den);
    let v = derivative(s, 1, num, den);
    let a = derivative(s, 2, num, den);
    assert(cross(dx * v, dy * v, dx * a, dy * a) == 0) by (nonlinear_arith);
}

} // verus!
