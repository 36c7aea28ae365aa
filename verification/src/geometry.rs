//! Integer points of the plane, the orientation predicate and squared
//! distances.
//!
//! Coordinates are whole numbers of a fixed sub-pixel unit, so that every
//! predicate of the collision core is decided exactly.

use vstd::prelude::*;

verus! {

/// A point or vector of the plane with integer coordinates.
#[derive(Clone, Copy, Debug, PartialEq, Eq, Structural)]
pub struct Vec2 {
    pub x: i32,
    pub y: i32,
}

/// The way three points turn.
#[derive(Clone, Copy, Debug, PartialEq, Eq, Structural)]
pub enum Orientation {
    Collinear,
    Clockwise,
    CounterClockwise,
}

/// Twice the signed area of the triangle `a`, `b`, `c`: positive where the
/// three points turn counter-clockwise, negative where they turn clockwise,
/// zero where they lie on one line.
#[verifier::opaque]
pub open spec fn cross(a: Vec2, b: Vec2, c: Vec2) -> int {
    (b.x - a.x) * (c.y - a.y) - (b.y - a.y) * (c.x - a.x)
}

/// The square of the distance between `a` and `b`.
#[verifier::opaque]
pub open spec fn dist2(a: Vec2, b: Vec2) -> int {
    (b.x - a.x) * (b.x - a.x) + (b.y - a.y) * (b.y - a.y)
}

/// The orientation of `a`, `b`, `c` by the sign of their cross product.
pub open spec fn orientation_of(a: Vec2, b: Vec2, c: Vec2) -> Orientation {
    if cross(a, b, c) == 0 {
        Orientation::Collinear
    } else if cross(a, b, c) > 0 {
        Orientation::CounterClockwise
    } else {
        Orientation::Clockwise
    }
}

/// `p` lies above `o`, or level with it and to its right: the half plane in
/// which every other point lies once `o` is the lowest, leftmost point.
pub open spec fn above(o: Vec2, p: Vec2) -> bool {
    p.y > o.y || (p.y == o.y && p.x > o.x)
}

/// `a` comes no later than `b` in the order of the scan around `o`: by polar
/// angle, and at equal angle the nearer point first.
pub open spec fn before(o: Vec2, a: Vec2, b: Vec2) -> bool {
    cross(o, a, b) > 0 || (cross(o, a, b) == 0 && dist2(o, a) <= dist2(o, b))
}

/// `a` comes strictly earlier than `b` in the order of the scan around `o`.
pub open spec fn strictly_before(o: Vec2, a: Vec2, b: Vec2) -> bool {
    cross(o, a, b) > 0 || (cross(o, a, b) == 0 && dist2(o, a) < dist2(o, b))
}

/// The bound of a product of two bounded factors.
pub proof fn lemma_product_bound(x: int, y: int, bx: int, by: int)
    requires
        -bx <= x <= bx,
        -by <= y <= by,
    ensures
        -(bx * by) <= x * y <= bx * by,
{
    assert(-(bx * by) <= x * y <= bx * by) by (nonlinear_arith)
        requires
            -bx <= x <= bx,
            -by <= y <= by,
    ;
}

/// The product of two 64-bit integers, which always fits in 128 bits.
pub fn wide_mul(x: i64, y: i64) -> (r: i128)
    ensures
        r == x * y,
{
    proof {
        lemma_product_bound(x as int, y as int, 0x8000_0000_0000_0000, 0x8000_0000_0000_0000);
        assert(0x8000_0000_0000_0000int * 0x8000_0000_0000_0000int
            == 0x4000_0000_0000_0000_0000_0000_0000_0000int);
    }
    (x as i128) * (y as i128)
}

/// The cross product of `b - a` and `c - a`.
pub fn cross_product(a: Vec2, b: Vec2, c: Vec2) -> (r: i128)
    ensures
        r == cross(a, b, c),
{
    let abx: i64 = b.x as i64 - a.x as i64;
    let aby: i64 = b.y as i64 - a.y as i64;
    let acx: i64 = c.x as i64 - a.x as i64;
    let acy: i64 = c.y as i64 - a.y as i64;
    proof {
        reveal(cross);
        lemma_product_bound(abx as int, acy as int, 0x1_0000_0000, 0x1_0000_0000);
        lemma_product_bound(aby as int, acx as int, 0x1_0000_0000, 0x1_0000_0000);
        assert(0x1_0000_0000int * 0x1_0000_0000int == 0x1_0000_0000_0000_0000int);
    }
    wide_mul(abx, acy) - wide_mul(aby, acx)
}

/// The squared distance between `a` and `b`.
pub fn length_squared(a: Vec2, b: Vec2) -> (r: i128)
    ensures
        r == dist2(a, b),
{
    let dx: i64 = b.x as i64 - a.x as i64;
    let dy: i64 = b.y as i64 - a.y as i64;
    proof {
        reveal(dist2);
        lemma_product_bound(dx as int, dx as int, 0x1_0000_0000, 0x1_0000_0000);
        lemma_product_bound(dy as int, dy as int, 0x1_0000_0000, 0x1_0000_0000);
        assert(0x1_0000_0000int * 0x1_0000_0000int == 0x1_0000_0000_0000_0000int);
    }
    wide_mul(dx, dx) + wide_mul(dy, dy)
}

/// Tells which way `a`, `b`, `c` turn.
pub fn orientation(a: Vec2, b: Vec2, c: Vec2) -> (o: Orientation)
    ensures
        o == orientation_of(a, b, c),
{
    let cross = cross_product(a, b, c);
    if cross == 0 {
        Orientation::Collinear
    } else if cross > 0 {
        Orientation::CounterClockwise
    } else {
        Orientation::Clockwise
    }
}

/// Whether `a` comes strictly earlier than `b` in the scan around `o`.
pub fn comes_before(o: Vec2, a: Vec2, b: Vec2) -> (r: bool)
    ensures
        r == strictly_before(o, a, b),
{
    let turn = cross_product(o, a, b);
    if turn == 0 {
        length_squared(o, a) < length_squared(o, b)
    } else {
        turn > 0
    }
}

} // verus!
