//! The arithmetic of products and determinants behind the facts about
//! turns.

use vstd::prelude::*;

verus! {

/// The determinant of the vectors `(ux, uy)` and `(vx, vy)`.
pub open spec fn det(ux: int, uy: int, vx: int, vy: int) -> int {
    ux * vy - uy * vx
}

/// The sign of a product, from the signs of its factors.
pub proof fn lemma_sign_of_product(x: int, y: int)
    ensures
        (x > 0 && y > 0) || (x < 0 && y < 0) ==> x * y > 0,
        (x > 0 && y < 0) || (x < 0 && y > 0) ==> x * y < 0,
        (x >= 0 && y >= 0) || (x <= 0 && y <= 0) ==> x * y >= 0,
        (x >= 0 && y <= 0) || (x <= 0 && y >= 0) ==> x * y <= 0,
        x == 0 || y == 0 ==> x * y == 0,
{
    assert((x > 0 && y > 0) || (x < 0 && y < 0) ==> x * y > 0) by (nonlinear_arith);
    assert((x > 0 && y < 0) || (x < 0 && y > 0) ==> x * y < 0) by (nonlinear_arith);
    assert(x == 0 || y == 0 ==> x * y == 0) by (nonlinear_arith);
}

/// A product with a positive factor has the sign of the other factor.
pub proof fn lemma_cancel_positive(x: int, k: int)
    requires
        k > 0,
    ensures
        x * k >= 0 ==> x >= 0,
        x * k > 0 ==> x > 0,
        x * k <= 0 ==> x <= 0,
        x * k == 0 ==> x == 0,
{
    lemma_sign_of_product(x, k);
}

/// A product of three factors does not depend on their order.
pub proof fn lemma_triple_product(x: int, y: int, z: int)
    ensures
        x * (y * z) == y * (x * z),
        x * (y * z) == z * (x * y),
        x * (y * z) == x * (z * y),
        x * (y * z) == y * (z * x),
        x * (y * z) == z * (y * x),
{
    assert(x * (y * z) == y * (x * z)) by (nonlinear_arith);
    assert(x * (y * z) == z * (x * y)) by (nonlinear_arith);
    assert(x * (y * z) == x * (z * y)) by (nonlinear_arith);
    assert(x * (y * z) == y * (z * x)) by (nonlinear_arith);
    assert(x * (y * z) == z * (y * x)) by (nonlinear_arith);
}

/// A factor times a difference is the difference of the products.
pub proof fn lemma_times_difference(x: int, p: int, q: int)
    ensures
        x * (p - q) == x * p - x * q,
        (p - q) * x == x * p - x * q,
{
    assert(x * (p - q) == x * p - x * q) by (nonlinear_arith);
    assert((p - q) * x == x * p - x * q) by (nonlinear_arith);
}

/// The determinants of three vectors, each scaled by a coordinate of the
/// vector it leaves out, cancel.
pub proof fn lemma_det_cancel(bx: int, by: int, cx: int, cy: int, dx: int, dy: int)
    ensures
        by * det(cx, cy, dx, dy) - cy * det(bx, by, dx, dy) + dy * det(bx, by, cx, cy) == 0,
        bx * det(cx, cy, dx, dy) - cx * det(bx, by, dx, dy) + dx * det(bx, by, cx, cy) == 0,
{
    lemma_times_difference(by, cx * dy, cy * dx);
    lemma_times_difference(cy, bx * dy, by * dx);
    lemma_times_difference(dy, bx * cy, by * cx);
    lemma_triple_product(by, cx, dy);
    lemma_triple_product(by, cy, dx);
    lemma_triple_product(cy, bx, dy);
    lemma_triple_product(cy, by, dx);
    lemma_triple_product(dy, bx, cy);
    lemma_triple_product(dy, by, cx);
    lemma_times_difference(bx, cx * dy, cy * dx);
    lemma_times_difference(cx, bx * dy, by * dx);
    lemma_times_difference(dx, bx * cy, by * cx);
    lemma_triple_product(bx, cx, dy);
    lemma_triple_product(bx, cy, dx);
    lemma_triple_product(cx, bx, dy);
    lemma_triple_product(cx, by, dx);
    lemma_triple_product(dx, bx, cy);
    lemma_triple_product(dx, by, cx);
}

/// The three-term relation between the determinants of four vectors.
pub proof fn lemma_det_relation(
    ax: int,
    ay: int,
    bx: int,
    by: int,
    cx: int,
    cy: int,
    dx: int,
    dy: int,
)
    ensures
        det(ax, ay, bx, by) * det(cx, cy, dx, dy) - det(ax, ay, cx, cy) * det(bx, by, dx, dy) + det(
            ax,
            ay,
            dx,
            dy,
        ) * det(bx, by, cx, cy) == 0,
{
    let m = det(cx, cy, dx, dy);
    let n = det(bx, by, dx, dy);
    let k = det(bx, by, cx, cy);
    lemma_det_cancel(bx, by, cx, cy, dx, dy);
    // Each product, spread over the coordinates of the first vector.
    lemma_times_difference(m, ax * by, ay * bx);
    lemma_triple_product(m, ax, by);
    lemma_triple_product(m, ay, bx);
    assert(det(ax, ay, bx, by) * m == ax * (by * m) - ay * (bx * m));
    lemma_times_difference(n, ax * cy, ay * cx);
    lemma_triple_product(n, ax, cy);
    lemma_triple_product(n, ay, cx);
    assert(det(ax, ay, cx, cy) * n == ax * (cy * n) - ay * (cx * n));
    lemma_times_difference(k, ax * dy, ay * dx);
    lemma_triple_product(k, ax, dy);
    lemma_triple_product(k, ay, dx);
    assert(det(ax, ay, dx, dy) * k == ax * (dy * k) - ay * (dx * k));
    // What multiplies each coordinate of the first vector cancels.
    let (x1, x2, x3) = (by * m, cy * n, dy * k);
    let (y1, y2, y3) = (bx * m, cx * n, dx * k);
    assert(x1 - x2 + x3 == 0);
    assert(y1 - y2 + y3 == 0);
    assert(ax * x1 - ax * x2 + ax * x3 == 0) by (nonlinear_arith)
        requires
            x1 - x2 + x3 == 0,
    ;
    assert(ay * y1 - ay * y2 + ay * y3 == 0) by (nonlinear_arith)
        requires
            y1 - y2 + y3 == 0,
    ;
}

/// The cross product of two vectors, scaled by a coordinate of a third, in
/// terms of the other two cross products.
pub proof fn lemma_det_expand(ux: int, uy: int, vx: int, vy: int, wx: int, wy: int)
    ensures
        det(ux, uy, wx, wy) * vy == det(ux, uy, vx, vy) * wy + det(vx, vy, wx, wy) * uy,
        det(ux, uy, wx, wy) * vx == det(ux, uy, vx, vy) * wx + det(vx, vy, wx, wy) * ux,
{
    assert((ux * wy - uy * wx) * vy == (ux * vy - uy * vx) * wy + (vx * wy - vy * wx) * uy)
        by (nonlinear_arith);
    assert((ux * wy - uy * wx) * vx == (ux * vy - uy * vx) * wx + (vx * wy - vy * wx) * ux)
        by (nonlinear_arith);
}

} // verus!
