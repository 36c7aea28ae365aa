//! Facts about the orientation predicate on which the hull construction
//! rests: its symmetries, the order by polar angle around the lowest point,
//! and the three-term relation between the turns of five points.

use vstd::prelude::*;
use crate::algebra::{
    det, lemma_cancel_positive, lemma_det_expand, lemma_det_relation, lemma_sign_of_product,
};
use crate::geometry::{above, before, cross, dist2, strictly_before, Vec2};

verus! {

/// Turning the three points round does not change their cross product.
pub proof fn lemma_cross_cyclic(a: Vec2, b: Vec2, c: Vec2)
    ensures
        cross(a, b, c) == cross(b, c, a),
        cross(a, b, c) == cross(c, a, b),
{
    reveal(cross);
    reveal(dist2);
    let (ax, ay, bx, by, cx, cy) = (a.x as int, a.y as int, b.x as int, b.y as int, c.x as int, c.y as int);
    assert((bx - ax) * (cy - ay) - (by - ay) * (cx - ax) == (cx - bx) * (ay - by) - (cy - by) * (ax
        - bx)) by (nonlinear_arith);
    assert((bx - ax) * (cy - ay) - (by - ay) * (cx - ax) == (ax - cx) * (by - cy) - (ay - cy) * (bx
        - cx)) by (nonlinear_arith);
}

/// Exchanging two of the three points negates their cross product.
pub proof fn lemma_cross_swap(a: Vec2, b: Vec2, c: Vec2)
    ensures
        cross(a, c, b) == -cross(a, b, c),
        cross(b, a, c) == -cross(a, b, c),
        cross(a, b, b) == 0,
        cross(a, a, b) == 0,
        cross(a, b, a) == 0,
{
    reveal(cross);
    reveal(dist2);
    let (ax, ay, bx, by, cx, cy) = (a.x as int, a.y as int, b.x as int, b.y as int, c.x as int, c.y as int);
    assert((cx - ax) * (by - ay) - (cy - ay) * (bx - ax) == -((bx - ax) * (cy - ay) - (by - ay) * (
    cx - ax))) by (nonlinear_arith);
    assert((ax - bx) * (cy - by) - (ay - by) * (cx - bx) == -((bx - ax) * (cy - ay) - (by - ay) * (
    cx - ax))) by (nonlinear_arith);
    assert((bx - ax) * (by - ay) - (by - ay) * (bx - ax) == 0) by (nonlinear_arith);
    assert((ax - ax) * (by - ay) - (ay - ay) * (bx - ax) == 0) by (nonlinear_arith);
    assert((bx - ax) * (ay - ay) - (by - ay) * (ax - ax) == 0) by (nonlinear_arith);
}

/// The three-term relation between the turns that four points make as seen
/// from a fifth.
pub proof fn lemma_turn_relation(t: Vec2, a: Vec2, b: Vec2, c: Vec2, d: Vec2)
    ensures
        cross(t, a, b) * cross(t, c, d) - cross(t, a, c) * cross(t, b, d) + cross(t, a, d) * cross(
            t,
            b,
            c,
        ) == 0,
{
    reveal(cross);
    reveal(dist2);
    lemma_det_relation(
        a.x - t.x,
        a.y - t.y,
        b.x - t.x,
        b.y - t.y,
        c.x - t.x,
        c.y - t.y,
        d.x - t.x,
        d.y - t.y,
    );
}

/// Among points above `o`, the order by polar angle is transitive: `a` no
/// later than `b` and `b` no later than `c` put `a` no later than `c`, and
/// strictly earlier where one of the two steps is strict.
pub proof fn lemma_angle_transitive(o: Vec2, a: Vec2, b: Vec2, c: Vec2)
    requires
        above(o, a),
        above(o, b),
        above(o, c),
        cross(o, a, b) >= 0,
        cross(o, b, c) >= 0,
    ensures
        cross(o, a, c) >= 0,
        cross(o, a, b) > 0 || cross(o, b, c) > 0 ==> cross(o, a, c) > 0,
{
    reveal(cross);
    reveal(dist2);
    let (ux, uy) = (a.x - o.x, a.y - o.y);
    let (vx, vy) = (b.x - o.x, b.y - o.y);
    let (wx, wy) = (c.x - o.x, c.y - o.y);
    let uv = det(ux, uy, vx, vy);
    let vw = det(vx, vy, wx, wy);
    let uw = det(ux, uy, wx, wy);
    assert(uv == cross(o, a, b) && vw == cross(o, b, c) && uw == cross(o, a, c));
    lemma_det_expand(ux, uy, vx, vy, wx, wy);
    if vy > 0 {
        lemma_sign_of_product(uv, wy);
        lemma_sign_of_product(vw, uy);
        lemma_cancel_positive(uw, vy);
        if uv > 0 {
            if wy == 0 {
                lemma_sign_of_product(vy, wx);
                assert(vw == vx * wy - vy * wx);
                assert(vx * wy == 0) by (nonlinear_arith)
                    requires
                        wy == 0,
                ;
                assert(false);
            }
        }
        if vw > 0 {
            if uy == 0 {
                lemma_sign_of_product(ux, wy);
                assert(uw == ux * wy - uy * wx);
                assert(uy * wx == 0) by (nonlinear_arith)
                    requires
                        uy == 0,
                ;
                if wy == 0 {
                    lemma_sign_of_product(vy, wx);
                    assert(vx * wy == 0) by (nonlinear_arith)
                        requires
                            wy == 0,
                    ;
                    assert(false);
                }
            }
        }
    } else {
        assert(vy == 0 && vx > 0);
        assert(uv == ux * vy - uy * vx);
        assert(ux * vy == 0) by (nonlinear_arith)
            requires
                vy == 0,
        ;
        lemma_sign_of_product(uy, vx);
        assert(uy == 0);
        assert(vw == vx * wy - vy * wx);
        assert(vy * wx == 0) by (nonlinear_arith)
            requires
                vy == 0,
        ;
        lemma_sign_of_product(vx, wy);
        assert(uw == ux * wy - uy * wx);
        assert(uy * wx == 0) by (nonlinear_arith)
            requires
                uy == 0,
        ;
        lemma_sign_of_product(ux, wy);
    }
}

/// Among points above `o`, lying on one ray from `o` is transitive.
pub proof fn lemma_same_ray_transitive(o: Vec2, a: Vec2, b: Vec2, c: Vec2)
    requires
        above(o, a),
        above(o, b),
        above(o, c),
        cross(o, a, b) == 0,
        cross(o, a, c) == 0,
    ensures
        cross(o, b, c) == 0,
{
    lemma_cross_swap(o, a, b);
    lemma_cross_swap(o, a, c);
    lemma_cross_swap(o, b, c);
    lemma_angle_transitive(o, b, a, c);
    lemma_angle_transitive(o, c, a, b);
}

/// The order of the scan around `o` is transitive among points above `o`.
pub proof fn lemma_before_transitive(o: Vec2, a: Vec2, b: Vec2, c: Vec2)
    requires
        above(o, a),
        above(o, b),
        above(o, c),
        before(o, a, b),
        before(o, b, c),
    ensures
        before(o, a, c),
{
    lemma_angle_transitive(o, a, b, c);
    if cross(o, a, b) == 0 && cross(o, b, c) == 0 {
        lemma_cross_swap(o, a, b);
        lemma_same_ray_transitive(o, b, a, c);
    }
}

/// A point strictly earlier than a second, which is no later than a third,
/// is strictly earlier than the third.
pub proof fn lemma_strictly_before_transitive(o: Vec2, a: Vec2, b: Vec2, c: Vec2)
    requires
        above(o, a),
        above(o, b),
        above(o, c),
        strictly_before(o, a, b),
        before(o, b, c),
    ensures
        strictly_before(o, a, c),
{
    lemma_angle_transitive(o, a, b, c);
    if cross(o, a, b) == 0 && cross(o, b, c) == 0 {
        lemma_cross_swap(o, a, b);
        lemma_same_ray_transitive(o, b, a, c);
    }
}

/// Of two points, one comes no later than the other in the scan around `o`.
pub proof fn lemma_before_total(o: Vec2, a: Vec2, b: Vec2)
    ensures
        before(o, a, b) || before(o, b, a),
        !strictly_before(o, a, b) ==> before(o, b, a),
{
    lemma_cross_swap(o, a, b);
}

/// A point left of an edge of a chain that turns left, and no earlier than
/// the edge's end in the order around `o`, is left of the edge before it too.
pub proof fn lemma_left_of_previous_edge(o: Vec2, a: Vec2, b: Vec2, c: Vec2, x: Vec2)
    requires
        cross(a, b, c) > 0,
        cross(o, b, c) > 0,
        cross(o, b, x) >= 0,
        cross(o, a, b) >= 0,
        cross(b, c, x) >= 0,
    ensures
        cross(a, b, x) >= 0,
{
    lemma_turn_relation(b, a, c, x, o);
    lemma_cross_swap(b, a, c);
    lemma_cross_cyclic(a, b, c);
    lemma_cross_cyclic(o, b, x);
    lemma_cross_swap(b, a, x);
    lemma_cross_cyclic(a, b, x);
    lemma_cross_cyclic(o, b, c);
    lemma_cross_swap(b, a, o);
    lemma_cross_cyclic(o, a, b);
    let abc = cross(a, b, c);
    let obx = cross(o, b, x);
    let abx = cross(a, b, x);
    let obc = cross(o, b, c);
    let oab = cross(o, a, b);
    let bcx = cross(b, c, x);
    assert(cross(b, a, c) == -abc);
    assert(cross(b, x, o) == obx);
    assert(cross(b, a, x) == -abx);
    assert(cross(b, c, o) == obc);
    assert(cross(b, a, o) == -oab);
    assert((-abc) * obx - (-abx) * obc + (-oab) * bcx == 0);
    lemma_sign_of_product(abc, obx);
    lemma_sign_of_product(oab, bcx);
    assert(abx * obc == abc * obx + oab * bcx) by (nonlinear_arith)
        requires
            (-abc) * obx - (-abx) * obc + (-oab) * bcx == 0,
    ;
    lemma_cancel_positive(abx, obc);
}

/// Every point left of the two edges that met at a dropped vertex `m` is left
/// of the edge from `l` to the candidate `x` that caused `m` to be dropped.
pub proof fn lemma_left_of_bridge(s: Vec2, l: Vec2, m: Vec2, x: Vec2, p: Vec2)
    requires
        cross(s, l, m) > 0,
        cross(l, m, x) <= 0,
        cross(s, l, p) >= 0,
        cross(s, l, x) > 0,
        cross(l, m, p) >= 0,
    ensures
        cross(l, x, p) >= 0,
{
    lemma_turn_relation(l, x, p, m, s);
    lemma_cross_cyclic(s, l, m);
    lemma_cross_swap(l, m, x);
    lemma_cross_cyclic(s, l, p);
    lemma_cross_cyclic(s, l, x);
    lemma_cross_swap(l, m, p);
    let lxp = cross(l, x, p);
    let slm = cross(s, l, m);
    let lmx = cross(l, m, x);
    let slp = cross(s, l, p);
    let slx = cross(s, l, x);
    let lmp = cross(l, m, p);
    assert(cross(l, m, s) == slm);
    assert(cross(l, x, m) == -lmx);
    assert(cross(l, p, s) == slp);
    assert(cross(l, x, s) == slx);
    assert(cross(l, p, m) == -lmp);
    assert(lxp * slm - (-lmx) * slp + slx * (-lmp) == 0);
    lemma_sign_of_product(lmx, slp);
    lemma_sign_of_product(slx, lmp);
    assert(lxp * slm == slx * lmp - lmx * slp) by (nonlinear_arith)
        requires
            lxp * slm - (-lmx) * slp + slx * (-lmp) == 0,
    ;
    lemma_cancel_positive(lxp, slm);
}

/// Every point left of the last edge and no later than its end `l` in the
/// order around `o` is left of the edge from `l` to a later candidate `x`
/// that turns left at `l`.
pub proof fn lemma_left_of_extension(o: Vec2, s: Vec2, l: Vec2, x: Vec2, p: Vec2)
    requires
        cross(o, s, l) > 0,
        cross(o, l, x) >= 0,
        cross(s, l, p) >= 0,
        cross(s, l, x) > 0,
        cross(o, p, l) >= 0,
    ensures
        cross(l, x, p) >= 0,
{
    lemma_turn_relation(l, x, p, o, s);
    lemma_cross_cyclic(o, s, l);
    lemma_cross_cyclic(o, l, x);
    lemma_cross_cyclic(s, l, p);
    lemma_cross_cyclic(s, l, x);
    lemma_cross_cyclic(o, p, l);
    lemma_cross_swap(l, o, p);
    let lxp = cross(l, x, p);
    let osl = cross(o, s, l);
    let olx = cross(o, l, x);
    let slp = cross(s, l, p);
    let slx = cross(s, l, x);
    let opl = cross(o, p, l);
    assert(cross(l, o, s) == osl);
    assert(cross(l, x, o) == olx);
    assert(cross(l, p, s) == slp);
    assert(cross(l, x, s) == slx);
    assert(cross(l, p, o) == -opl);
    assert(lxp * osl - olx * slp + slx * (-opl) == 0);
    lemma_sign_of_product(olx, slp);
    lemma_sign_of_product(slx, opl);
    assert(lxp * osl == olx * slp + slx * opl) by (nonlinear_arith)
        requires
            lxp * osl - olx * slp + slx * (-opl) == 0,
    ;
    lemma_cancel_positive(lxp, osl);
}

/// Of two points above `o` on one ray from `o`, the one no farther from `o`
/// is no higher, and where it is level with `o` so is the other, which is
/// then no nearer in `x`.
pub proof fn lemma_ray_order(o: Vec2, p: Vec2, q: Vec2)
    requires
        above(o, p),
        above(o, q),
        cross(o, p, q) == 0,
        dist2(o, p) <= dist2(o, q),
    ensures
        p.y - o.y <= q.y - o.y,
        p.y == o.y ==> q.y == o.y && p.x - o.x <= q.x - o.x,
{
    reveal(cross);
    reveal(dist2);
    let (vx, vy) = (p.x - o.x, p.y - o.y);
    let (wx, wy) = (q.x - o.x, q.y - o.y);
    assert(vx * wy - vy * wx == 0);
    assert(vx * vx + vy * vy <= wx * wx + wy * wy);
    if vy == 0 {
        assert(vy * wx == 0) by (nonlinear_arith)
            requires
                vy == 0,
        ;
        lemma_sign_of_product(vx, wy);
        assert(wy == 0);
        assert(vy * vy == 0 && wy * wy == 0) by (nonlinear_arith)
            requires
                vy == 0,
                wy == 0,
        ;
        assert(vx <= wx) by (nonlinear_arith)
            requires
                vx * vx <= wx * wx,
                vx > 0,
                wx > 0,
        ;
    } else {
        if wy == 0 {
            assert(vx * wy == 0) by (nonlinear_arith)
                requires
                    wy == 0,
            ;
            lemma_sign_of_product(vy, wx);
            assert(false);
        }
        let vv = vx * vx + vy * vy;
        let ww = wx * wx + wy * wy;
        let k = vx * wy;
        assert((wx * vy) * (wx * vy) == (wx * wx) * (vy * vy)) by (nonlinear_arith);
        assert((vx * wy) * (vx * wy) == (vx * vx) * (wy * wy)) by (nonlinear_arith);
        assert(wx * vy == vx * wy) by (nonlinear_arith)
            requires
                vx * wy - vy * wx == 0,
        ;
        assert((wx * wx) * (vy * vy) == (vx * vx) * (wy * wy));
        assert(ww * (vy * vy) == (wx * wx) * (vy * vy) + (wy * wy) * (vy * vy))
            by (nonlinear_arith)
            requires
                ww == wx * wx + wy * wy,
        ;
        assert(vv * (wy * wy) == (vx * vx) * (wy * wy) + (vy * vy) * (wy * wy))
            by (nonlinear_arith)
            requires
                vv == vx * vx + vy * vy,
        ;
        assert((wy * wy) * (vy * vy) == (vy * vy) * (wy * wy)) by (nonlinear_arith);
        assert(ww * (vy * vy) == vv * (wy * wy));
        assert(vv > 0) by (nonlinear_arith)
            requires
                vv == vx * vx + vy * vy,
                vy > 0,
        ;
        if vy > wy {
            assert(vy * vy > wy * wy) by (nonlinear_arith)
                requires
                    vy > wy,
                    wy > 0,
            ;
            assert(ww * (vy * vy) > vv * (wy * wy)) by (nonlinear_arith)
                requires
                    ww >= vv,
                    vv > 0,
                    vy * vy > wy * wy,
                    wy * wy >= 0,
            ;
            assert(false);
        }
    }
}

/// A point on the ray from `o` through the last vertex `l`, no nearer than
/// `l`, does not turn left at `l` after any earlier vertex `s`.
pub proof fn lemma_no_left_turn_along_ray(o: Vec2, s: Vec2, l: Vec2, x: Vec2)
    requires
        s == o || (above(o, s) && cross(o, s, l) > 0),
        above(o, l),
        above(o, x),
        cross(o, l, x) == 0,
        dist2(o, l) <= dist2(o, x),
    ensures
        cross(s, l, x) <= 0,
{
    reveal(cross);
    reveal(dist2);
    let (ax, ay) = (s.x - o.x, s.y - o.y);
    let (ux, uy) = (l.x - o.x, l.y - o.y);
    let (wx, wy) = (x.x - o.x, x.y - o.y);
    let au = ax * uy - ay * ux;
    let aw = ax * wy - ay * wx;
    assert(ux * wy - uy * wx == 0);
    assert(cross(s, l, x) == (ux - ax) * (wy - ay) - (uy - ay) * (wx - ax));
    assert((ux - ax) * (wy - ay) == ux * wy - ux * ay - ax * wy + ax * ay) by (nonlinear_arith);
    assert((uy - ay) * (wx - ax) == uy * wx - uy * ax - ay * wx + ay * ax) by (nonlinear_arith);
    assert(ux * ay == ay * ux && uy * ax == ax * uy && ax * ay == ay * ax) by (nonlinear_arith);
    assert(cross(s, l, x) == au - aw);
    if s == o {
        assert(au == 0 && aw == 0) by (nonlinear_arith)
            requires
                ax == 0,
                ay == 0,
                au == ax * uy - ay * ux,
                aw == ax * wy - ay * wx,
        ;
    } else {
        assert(au == cross(o, s, l));
        lemma_ray_order(o, l, x);
        if uy > 0 {
            assert(aw * uy == au * wy) by (nonlinear_arith)
                requires
                    ux * wy - uy * wx == 0,
                    au == ax * uy - ay * ux,
                    aw == ax * wy - ay * wx,
            ;
            assert(au * wy >= au * uy) by (nonlinear_arith)
                requires
                    au > 0,
                    wy >= uy,
            ;
            assert(aw >= au) by (nonlinear_arith)
                requires
                    aw * uy >= au * uy,
                    uy > 0,
            ;
        } else {
            assert(ax * uy == 0) by (nonlinear_arith)
                requires
                    uy == 0,
            ;
            lemma_sign_of_product(ay, ux);
            assert(false);
        }
    }
}

/// A point of the segment from `o` to `l` is left of the edge from `l` to any
/// point that lies strictly later than `l` in the order around `o`.
pub proof fn lemma_segment_left_of_extension(o: Vec2, l: Vec2, x: Vec2, p: Vec2)
    requires
        above(o, l),
        above(o, p),
        above(o, x),
        cross(o, l, p) == 0,
        dist2(o, p) <= dist2(o, l),
        cross(o, l, x) > 0,
    ensures
        cross(l, x, p) >= 0,
{
    reveal(cross);
    reveal(dist2);
    let (ux, uy) = (l.x - o.x, l.y - o.y);
    let (vx, vy) = (p.x - o.x, p.y - o.y);
    let (wx, wy) = (x.x - o.x, x.y - o.y);
    let uw = ux * wy - uy * wx;
    let vw = vx * wy - vy * wx;
    lemma_cross_swap(o, l, p);
    lemma_ray_order(o, p, l);
    assert(ux * vy - uy * vx == 0);
    assert(cross(l, x, p) == (wx - ux) * (vy - uy) - (wy - uy) * (vx - ux));
    assert((wx - ux) * (vy - uy) == wx * vy - wx * uy - ux * vy + ux * uy) by (nonlinear_arith);
    assert((wy - uy) * (vx - ux) == wy * vx - wy * ux - uy * vx + uy * ux) by (nonlinear_arith);
    assert(wx * vy == vy * wx && wy * vx == vx * wy && wx * uy == uy * wx) by (nonlinear_arith);
    assert(wy * ux == ux * wy && ux * uy == uy * ux) by (nonlinear_arith);
    assert(cross(l, x, p) == uw - vw);
    if uy > 0 {
        assert(vw * uy == vy * uw) by (nonlinear_arith)
            requires
                ux * vy - uy * vx == 0,
                uw == ux * wy - uy * wx,
                vw == vx * wy - vy * wx,
        ;
        assert(vy * uw <= uy * uw) by (nonlinear_arith)
            requires
                uw > 0,
                vy <= uy,
        ;
        assert(vw <= uw) by (nonlinear_arith)
            requires
                vw * uy <= uy * uw,
                uy > 0,
        ;
    } else {
        assert(vy == 0);
        assert(uy * wx == 0 && vy * wx == 0) by (nonlinear_arith)
            requires
                uy == 0,
                vy == 0,
        ;
        lemma_sign_of_product(ux, wy);
        assert(wy > 0);
        assert(vx * wy <= ux * wy) by (nonlinear_arith)
            requires
                vx <= ux,
                wy > 0,
        ;
    }
}

/// A squared distance is not negative, and zero from a point to itself.
pub proof fn lemma_dist2_nonnegative(a: Vec2, b: Vec2)
    ensures
        dist2(a, b) >= 0,
        dist2(a, a) == 0,
{
    reveal(dist2);
    let (dx, dy) = (b.x - a.x, b.y - a.y);
    assert(dx * dx >= 0 && dy * dy >= 0) by (nonlinear_arith);
    assert((a.x - a.x) * (a.x - a.x) + (a.y - a.y) * (a.y - a.y) == 0) by (nonlinear_arith);
}

/// Two points above `o` on one ray from `o` and equally far from it are
/// one point.
pub proof fn lemma_same_ray_same_distance(o: Vec2, p: Vec2, q: Vec2)
    requires
        above(o, p),
        above(o, q),
        cross(o, p, q) == 0,
        dist2(o, p) == dist2(o, q),
    ensures
        p == q,
{
    lemma_cross_swap(o, p, q);
    lemma_ray_order(o, p, q);
    lemma_ray_order(o, q, p);
    reveal(cross);
    let (vx, vy) = (p.x - o.x, p.y - o.y);
    let (wx, wy) = (q.x - o.x, q.y - o.y);
    assert(vy == wy);
    if vy > 0 {
        assert(vx * wy - vy * wx == 0);
        assert(vx * wy - vy * wx == vy * (vx - wx)) by (nonlinear_arith)
            requires
                vy == wy,
        ;
        lemma_sign_of_product(vy, vx - wx);
    }
}

/// A candidate `x` on the line of the last edge, from `s` to `l`, is at
/// least as far from `s` as `l` is, and equally far only where it is `l`
/// itself: of the two, the top of the stack is never the farther one.
pub proof fn lemma_collinear_candidate_is_no_nearer(o: Vec2, s: Vec2, l: Vec2, x: Vec2)
    requires
        s == o || (above(o, s) && cross(o, s, l) > 0),
        above(o, l),
        above(o, x),
        before(o, l, x),
        cross(s, l, x) == 0,
    ensures
        dist2(s, x) >= dist2(s, l),
        dist2(s, x) == dist2(s, l) ==> x == l,
{
    if s == o {
        if dist2(o, x) == dist2(o, l) {
            lemma_same_ray_same_distance(o, l, x);
        }
    } else {
        reveal(cross);
        reveal(dist2);
        let (ax, ay) = (s.x - o.x, s.y - o.y);
        let (ex, ey) = (l.x - s.x, l.y - s.y);
        let (fx, fy) = (x.x - s.x, x.y - s.y);
        let a = ax * ey - ay * ex;
        let b = ax * fy - ay * fx;
        let e2 = ex * ex + ey * ey;
        let f2 = fx * fx + fy * fy;
        assert(ex * fy - ey * fx == 0);
        assert(dist2(s, l) == e2 && dist2(s, x) == f2);
        assert(cross(o, s, l) == ax * (ay + ey) - ay * (ax + ex));
        assert(ax * (ay + ey) - ay * (ax + ex) == ax * ey - ay * ex) by (nonlinear_arith);
        assert(a > 0);
        assert(cross(o, l, x) == (ax + ex) * (ay + fy) - (ay + ey) * (ax + fx));
        assert((ax + ex) * (ay + fy) == ax * ay + ax * fy + ex * ay + ex * fy)
            by (nonlinear_arith);
        assert((ay + ey) * (ax + fx) == ay * ax + ay * fx + ey * ax + ey * fx)
            by (nonlinear_arith);
        assert(ax * ay == ay * ax && ex * ay == ay * ex && ey * ax == ax * ey)
            by (nonlinear_arith);
        assert(b >= a);
        assert(b * ex - a * fx == ax * (ex * fy - ey * fx)) by (nonlinear_arith)
            requires
                a == ax * ey - ay * ex,
                b == ax * fy - ay * fx,
        ;
        assert(b * ey - a * fy == ay * (ex * fy - ey * fx)) by (nonlinear_arith)
            requires
                a == ax * ey - ay * ex,
                b == ax * fy - ay * fx,
        ;
        assert(ax * (ex * fy - ey * fx) == 0 && ay * (ex * fy - ey * fx) == 0)
            by (nonlinear_arith)
            requires
                ex * fy - ey * fx == 0,
        ;
        assert(b * ex == a * fx && b * ey == a * fy);
        let (aa, bb) = (a * a, b * b);
        assert((a * fx) * (a * fx) == aa * (fx * fx)) by (nonlinear_arith)
            requires
                aa == a * a,
        ;
        assert((a * fy) * (a * fy) == aa * (fy * fy)) by (nonlinear_arith)
            requires
                aa == a * a,
        ;
        assert((b * ex) * (b * ex) == bb * (ex * ex)) by (nonlinear_arith)
            requires
                bb == b * b,
        ;
        assert((b * ey) * (b * ey) == bb * (ey * ey)) by (nonlinear_arith)
            requires
                bb == b * b,
        ;
        assert(aa * f2 == aa * (fx * fx) + aa * (fy * fy)) by (nonlinear_arith)
            requires
                f2 == fx * fx + fy * fy,
        ;
        assert(bb * e2 == bb * (ex * ex) + bb * (ey * ey)) by (nonlinear_arith)
            requires
                e2 == ex * ex + ey * ey,
        ;
        assert(aa * f2 == bb * e2);
        assert(aa > 0 && bb >= aa) by (nonlinear_arith)
            requires
                aa == a * a,
                bb == b * b,
                b >= a,
                a > 0,
        ;
        assert(e2 >= 0 && f2 >= 0) by (nonlinear_arith)
            requires
                e2 == ex * ex + ey * ey,
                f2 == fx * fx + fy * fy,
        ;
        assert(bb * e2 >= aa * e2) by (nonlinear_arith)
            requires
                bb >= aa,
                e2 >= 0,
        ;
        assert(f2 >= e2) by (nonlinear_arith)
            requires
                aa * f2 >= aa * e2,
                aa > 0,
        ;
        if f2 == e2 {
            assert(e2 > 0) by {
                if ex == 0 && ey == 0 {
                    assert(ax * ey - ay * ex == 0) by (nonlinear_arith)
                        requires
                            ex == 0,
                            ey == 0,
                    ;
                }
                assert(ex != 0 || ey != 0);
                assert(ex * ex + ey * ey > 0) by (nonlinear_arith)
                    requires
                        ex != 0 || ey != 0,
                ;
            }
            assert(bb == aa) by (nonlinear_arith)
                requires
                    aa * e2 == bb * e2,
                    e2 > 0,
            ;
            assert(b == a) by (nonlinear_arith)
                requires
                    b * b == a * a,
                    b >= a,
                    a > 0,
            ;
            assert(ex == fx) by (nonlinear_arith)
                requires
                    a * ex == a * fx,
                    a > 0,
            ;
            assert(ey == fy) by (nonlinear_arith)
                requires
                    a * ey == a * fy,
                    a > 0,
            ;
        }
    }
}

} // verus!
