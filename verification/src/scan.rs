//! The scan of the hull construction: a stack of vertices that keeps turning
//! left while the points come in by polar angle around the lowest point.

use vstd::prelude::*;
use crate::geometry::{
    above, before, cross, dist2, length_squared, orientation, Orientation, Vec2,
};
use crate::order::in_scan_order;
use crate::turns::{
    lemma_angle_transitive,
    lemma_collinear_candidate_is_no_nearer,
    lemma_cross_swap,
    lemma_left_of_bridge,
    lemma_left_of_extension,
    lemma_left_of_previous_edge,
    lemma_no_left_turn_along_ray,
    lemma_same_ray_transitive,
    lemma_segment_left_of_extension,
};

verus! {

/// The turn that `p` makes with the edge of `h` that starts at its vertex
/// `j`.
pub open spec fn edge_turn(h: Seq<Vec2>, j: int, p: Vec2) -> int {
    cross(h[j], h[j + 1], p)
}

/// The turn that `h` makes at its vertex `j`.
pub open spec fn turn_at(h: Seq<Vec2>, j: int) -> int {
    cross(h[j - 1], h[j], h[j + 1])
}

/// What holds of the stack `h` once the first `k` points of `s` are scanned:
/// it starts at `o`, its other vertices are points of `s` that come no later
/// than any point still to be scanned, it turns left at each inner vertex,
/// its vertices come in strictly growing polar angle, and every scanned point
/// is left of each of its edges or on it.
pub open spec fn is_left_chain(o: Vec2, s: Seq<Vec2>, k: int, h: Seq<Vec2>) -> bool {
    &&& h.len() >= 1
    &&& h[0] == o
    &&& forall|j: int| 1 <= j < h.len() ==> above(o, #[trigger] h[j]) && s.contains(h[j])
    &&& forall|j: int, i: int|
        1 <= j < h.len() && k <= i < s.len() ==> #[trigger] before(o, h[j], s[i])
    &&& forall|j: int| 1 <= j < h.len() - 1 ==> #[trigger] turn_at(h, j) > 0
    &&& forall|j: int, i: int|
        0 <= j < h.len() - 1 && 0 <= i < k ==> #[trigger] edge_turn(h, j, s[i]) >= 0
    &&& forall|i: int, j: int| 1 <= i < j < h.len() ==> #[trigger] cross(o, h[i], h[j]) > 0
}

/// No scanned point comes later than the top of the stack `h` in the order
/// around `o`.
pub open spec fn top_is_latest(o: Vec2, s: Seq<Vec2>, k: int, h: Seq<Vec2>) -> bool {
    forall|i: int| 0 <= i < k ==> #[trigger] before(o, s[i], h.last())
}

/// What is known of the vertex `m` that was last dropped from the stack `h`
/// for the candidate `x`.
pub open spec fn was_dropped(o: Vec2, s: Seq<Vec2>, k: int, h: Seq<Vec2>, x: Vec2, m: Vec2) -> bool {
    &&& above(o, m)
    &&& cross(o, m, x) >= 0
    &&& cross(h.last(), m, x) <= 0
    &&& forall|i: int| 0 <= i < k ==> #[trigger] cross(h.last(), m, s[i]) >= 0
    &&& h.len() >= 2 ==> cross(h[h.len() - 2], h.last(), m) > 0 && cross(o, h.last(), m) > 0
}

/// What holds while the candidate `x`, the point of `s` at `k`, makes its way
/// onto the stack `h`, after `dropped` was the last vertex to go.
pub open spec fn is_candidate(
    o: Vec2,
    s: Seq<Vec2>,
    k: int,
    h: Seq<Vec2>,
    x: Vec2,
    dropped: Option<Vec2>,
) -> bool {
    &&& 0 <= k < s.len()
    &&& x == s[k]
    &&& forall|i: int| 0 <= i < s.len() ==> above(o, #[trigger] s[i])
    &&& in_scan_order(o, s)
    &&& is_left_chain(o, s, k, h)
    &&& dropped is None ==> top_is_latest(o, s, k, h) && (k >= 1 ==> h.len() >= 2)
    &&& dropped is Some ==> was_dropped(o, s, k, h, x, dropped->Some_0)
    &&& h.len() == 1 && k >= 1 ==> forall|i: int| 0 <= i < k ==> #[trigger] cross(o, x, s[i]) == 0
}

/// A candidate that is left of the last edge of the chain, and no earlier
/// than each of its vertices, is left of every edge of the chain.
proof fn lemma_left_of_chain(o: Vec2, s: Seq<Vec2>, k: int, h: Seq<Vec2>, x: Vec2, j: int)
    requires
        is_left_chain(o, s, k, h),
        h.len() >= 2,
        0 <= j < h.len() - 1,
        forall|i: int| 1 <= i < h.len() ==> #[trigger] cross(o, h[i], x) >= 0,
        cross(h[h.len() - 2], h[h.len() - 1], x) >= 0,
    ensures
        cross(h[j], h[j + 1], x) >= 0,
    decreases h.len() - j,
{
    if j < h.len() - 2 {
        lemma_left_of_chain(o, s, k, h, x, j + 1);
        let a = h[j];
        let b = h[j + 1];
        let c = h[j + 2];
        assert(turn_at(h, j + 1) > 0);
        assert(cross(o, h[j + 1], h[j + 2]) > 0);
        assert(cross(o, h[j + 1], x) >= 0);
        if j == 0 {
            lemma_cross_swap(o, b, b);
        } else {
            assert(cross(o, h[j], h[j + 1]) > 0);
        }
        lemma_left_of_previous_edge(o, a, b, c, x);
    }
}

/// Dropping the top of the stack, where the candidate does not turn left
/// after the last edge, keeps what the scan maintains.
proof fn lemma_drop(o: Vec2, s: Seq<Vec2>, k: int, h: Seq<Vec2>, x: Vec2, dropped: Option<Vec2>)
    requires
        is_candidate(o, s, k, h, x, dropped),
        h.len() >= 2,
        cross(h[h.len() - 2], h[h.len() - 1], x) <= 0,
    ensures
        is_candidate(o, s, k, h.drop_last(), x, Some(h.last())),
{
    let n = h.len() as int;
    let g = h.drop_last();
    let below = h[n - 2];
    let top = h[n - 1];
    assert(g.len() == n - 1);
    assert(g.last() == below);
    assert(above(o, top));
    assert(before(o, h[n - 1], s[k]));
    assert(cross(o, top, x) >= 0);
    assert forall|j: int, i: int| 1 <= j < g.len() && k <= i < s.len() implies #[trigger] before(
        o,
        g[j],
        s[i],
    ) by {
        assert(before(o, h[j], s[i]));
    }
    assert forall|j: int| 1 <= j < g.len() - 1 implies #[trigger] turn_at(g, j) > 0 by {
        assert(turn_at(h, j) > 0);
    }
    assert forall|j: int, i: int| 0 <= j < g.len() - 1 && 0 <= i < k implies #[trigger] edge_turn(
        g,
        j,
        s[i],
    ) >= 0 by {
        assert(edge_turn(h, j, s[i]) >= 0);
    }
    assert forall|i: int, j: int| 1 <= i < j < g.len() implies #[trigger] cross(o, g[i], g[j])
        > 0 by {
        assert(cross(o, h[i], h[j]) > 0);
    }
    assert(is_left_chain(o, s, k, g));
    assert forall|i: int| 0 <= i < k implies #[trigger] cross(g.last(), top, s[i]) >= 0 by {
        assert(edge_turn(h, n - 2, s[i]) >= 0);
    }
    if n >= 3 {
        assert(turn_at(h, n - 2) > 0);
        assert(cross(o, h[n - 2], h[n - 1]) > 0);
    } else {
        assert(below == o);
        assert(cross(o, top, x) == 0);
        if dropped is Some {
            let m = dropped->Some_0;
            lemma_angle_transitive(o, top, m, x);
            assert(false);
        }
        assert forall|i: int| 0 <= i < k implies #[trigger] cross(o, x, s[i]) == 0 by {
            assert(edge_turn(h, 0, s[i]) >= 0);
            assert(before(o, s[i], h.last()));
            lemma_cross_swap(o, top, s[i]);
            lemma_same_ray_transitive(o, top, x, s[i]);
        }
    }
    assert(was_dropped(o, s, k, g, x, top));
}

/// The candidate comes strictly later than every vertex that stays on the
/// stack.
proof fn lemma_candidate_is_later(
    o: Vec2,
    s: Seq<Vec2>,
    k: int,
    h: Seq<Vec2>,
    x: Vec2,
    dropped: Option<Vec2>,
)
    requires
        is_candidate(o, s, k, h, x, dropped),
        h.len() >= 2 ==> cross(h[h.len() - 2], h[h.len() - 1], x) > 0,
    ensures
        forall|i: int| 1 <= i < h.len() ==> #[trigger] cross(o, h[i], x) > 0,
{
    let n = h.len() as int;
    assert forall|i: int| 1 <= i < n implies #[trigger] cross(o, h[i], x) > 0 by {
        let top = h[n - 1];
        let below = h[n - 2];
        assert(above(o, top));
        assert(before(o, h[n - 1], s[k]));
        if cross(o, top, x) == 0 {
            if n >= 3 {
                assert(above(o, below));
                assert(cross(o, h[n - 2], h[n - 1]) > 0);
            }
            lemma_no_left_turn_along_ray(o, below, top, x);
            assert(false);
        }
        if i < n - 1 {
            assert(above(o, h[i]));
            assert(cross(o, h[i], h[n - 1]) > 0);
            lemma_angle_transitive(o, h[i], top, x);
        }
    }
}

/// Every scanned point is left of the edge from the top of the stack to the
/// candidate, or on it.
proof fn lemma_new_edge(
    o: Vec2,
    s: Seq<Vec2>,
    k: int,
    h: Seq<Vec2>,
    x: Vec2,
    dropped: Option<Vec2>,
    i: int,
)
    requires
        is_candidate(o, s, k, h, x, dropped),
        h.len() >= 2 ==> cross(h[h.len() - 2], h[h.len() - 1], x) > 0,
        0 <= i < k,
    ensures
        cross(h[h.len() - 1], x, s[i]) >= 0,
{
    let n = h.len() as int;
    let top = h[n - 1];
    let p = s[i];
    if n == 1 {
        assert(top == o);
        assert(cross(o, x, s[i]) == 0);
    } else {
        let below = h[n - 2];
        assert(cross(below, top, x) > 0);
        assert(edge_turn(h, n - 2, s[i]) >= 0);
        if dropped is Some {
            let m = dropped->Some_0;
            assert(cross(h.last(), m, s[i]) >= 0);
            lemma_left_of_bridge(below, top, m, x, p);
        } else {
            assert(before(o, s[i], h.last()));
            assert(above(o, top));
            assert(before(o, h[n - 1], s[k]));
            if n >= 3 {
                assert(cross(o, h[n - 2], h[n - 1]) > 0);
                lemma_left_of_extension(o, below, top, x, p);
            } else {
                assert(below == o);
                lemma_cross_swap(o, top, p);
                lemma_segment_left_of_extension(o, top, x, p);
            }
        }
    }
}

/// Pushing the candidate keeps the stack a chain that turns left, now of the
/// first `k + 1` points, with the candidate as the latest of them.
proof fn lemma_push(o: Vec2, s: Seq<Vec2>, k: int, h: Seq<Vec2>, x: Vec2, dropped: Option<Vec2>)
    requires
        is_candidate(o, s, k, h, x, dropped),
        h.len() >= 2 ==> cross(h[h.len() - 2], h[h.len() - 1], x) > 0,
    ensures
        is_left_chain(o, s, k + 1, h.push(x)),
        top_is_latest(o, s, k + 1, h.push(x)),
{
    let n = h.len() as int;
    let g = h.push(x);
    assert(g.len() == n + 1);
    assert(forall|j: int| 0 <= j < n ==> g[j] == h[j]);
    assert(g[n] == x);
    assert(g.last() == x);
    lemma_cross_swap(o, x, x);
    lemma_candidate_is_later(o, s, k, h, x, dropped);
    assert forall|j: int| 1 <= j < g.len() implies above(o, #[trigger] g[j]) && s.contains(
        g[j],
    ) by {
        if j < n {
            assert(g[j] == h[j]);
        }
    }
    assert forall|j: int, i: int| 1 <= j < g.len() && k + 1 <= i < s.len() implies #[trigger] before(
        o,
        g[j],
        s[i],
    ) by {
        if j < n {
            assert(before(o, h[j], s[i]));
        } else {
            assert(before(o, s[k], s[i]));
        }
    }
    assert forall|j: int| 1 <= j < g.len() - 1 implies #[trigger] turn_at(g, j) > 0 by {
        if j < n - 1 {
            assert(turn_at(h, j) > 0);
        }
    }
    assert forall|i: int, j: int| 1 <= i < j < g.len() implies #[trigger] cross(o, g[i], g[j])
        > 0 by {
        if j < n {
            assert(cross(o, h[i], h[j]) > 0);
        } else {
            assert(cross(o, h[i], x) > 0);
        }
    }
    assert forall|j: int, i: int| 0 <= j < g.len() - 1 && 0 <= i < k + 1 implies #[trigger] edge_turn(
        g,
        j,
        s[i],
    ) >= 0 by {
        if j < n - 1 {
            if i < k {
                assert(edge_turn(h, j, s[i]) >= 0);
            } else {
                assert forall|i2: int| 1 <= i2 < n implies #[trigger] cross(o, h[i2], x) >= 0 by {
                    assert(cross(o, h[i2], x) > 0);
                }
                lemma_left_of_chain(o, s, k, h, x, j);
            }
        } else {
            if i < k {
                lemma_new_edge(o, s, k, h, x, dropped, i);
            } else {
                lemma_cross_swap(h[n - 1], x, x);
            }
        }
    }
    assert forall|i: int| 0 <= i < k + 1 implies #[trigger] before(o, s[i], g.last()) by {
        if i < k {
            assert(before(o, s[i], s[k]));
        }
    }
}

/// A candidate that lies on the line of the last edge, no farther from the
/// edge's start than the top of the stack, is the top of the stack again.
proof fn lemma_nearer_candidate_is_top(
    o: Vec2,
    s: Seq<Vec2>,
    k: int,
    h: Seq<Vec2>,
    x: Vec2,
    dropped: Option<Vec2>,
)
    requires
        is_candidate(o, s, k, h, x, dropped),
        h.len() >= 2,
        cross(h[h.len() - 2], h[h.len() - 1], x) == 0,
        dist2(h[h.len() - 2], x) <= dist2(h[h.len() - 2], h[h.len() - 1]),
    ensures
        x == h.last(),
{
    let n = h.len() as int;
    assert(above(o, h[n - 1]));
    assert(before(o, h[n - 1], s[k]));
    if n >= 3 {
        assert(above(o, h[n - 2]));
        assert(cross(o, h[n - 2], h[n - 1]) > 0);
    }
    lemma_collinear_candidate_is_no_nearer(o, h[n - 2], h[n - 1], x);
}

/// Leaving out a candidate that is the top of the stack again keeps the
/// stack a chain that turns left, now of the first `k + 1` points.
proof fn lemma_skip(o: Vec2, s: Seq<Vec2>, k: int, h: Seq<Vec2>, x: Vec2, dropped: Option<Vec2>)
    requires
        is_candidate(o, s, k, h, x, dropped),
        h.len() >= 2,
        x == h.last(),
    ensures
        is_left_chain(o, s, k + 1, h),
        top_is_latest(o, s, k + 1, h),
{
    let n = h.len() as int;
    lemma_cross_swap(o, x, x);
    lemma_cross_swap(h[n - 2], x, x);
    assert forall|j: int, i: int| 1 <= j < h.len() && k + 1 <= i < s.len() implies #[trigger] before(
        o,
        h[j],
        s[i],
    ) by {
        assert(before(o, h[j], s[i]));
    }
    assert forall|i2: int| 1 <= i2 < n implies #[trigger] cross(o, h[i2], x) >= 0 by {
        assert(before(o, h[i2], s[k]));
    }
    assert forall|j: int, i: int| 0 <= j < h.len() - 1 && 0 <= i < k + 1 implies #[trigger] edge_turn(
        h,
        j,
        s[i],
    ) >= 0 by {
        if i < k {
            assert(edge_turn(h, j, s[i]) >= 0);
        } else {
            lemma_left_of_chain(o, s, k, h, x, j);
        }
    }
    assert forall|i: int| 0 <= i < k + 1 implies #[trigger] before(o, s[i], h.last()) by {
        if i < k {
            assert(before(o, s[i], s[k]));
        }
    }
}

/// The stack of the scan over the points `sorted`, which lie above `o` and
/// come in the order of the scan around `o`.
///
/// The stack starts at `o`. Each point in turn is held against the last edge
/// of the stack. Where the two turn counter-clockwise the point is pushed.
/// Where they turn clockwise the top of the stack is dropped and the point is
/// held against the edge below. Where they lie on one line the farther of
/// the point and the top stays and the nearer goes: the top is dropped, or
/// the point is left out where it is the top once more.
pub fn graham_scan(o: Vec2, sorted: &Vec<Vec2>) -> (stack: Vec<Vec2>)
    requires
        forall|i: int| 0 <= i < sorted.len() ==> above(o, #[trigger] sorted[i]),
        in_scan_order(o, sorted@),
    ensures
        is_left_chain(o, sorted@, sorted.len() as int, stack@),
        top_is_latest(o, sorted@, sorted.len() as int, stack@),
        sorted.len() >= 1 ==> stack.len() >= 2,
        sorted.len() == 0 ==> stack.len() == 1,
{
    let mut hull: Vec<Vec2> = Vec::new();
    hull.push(o);
    let mut k: usize = 0;
    while k < sorted.len()
        invariant
            k <= sorted.len(),
            forall|i: int| 0 <= i < sorted.len() ==> above(o, #[trigger] sorted[i]),
            in_scan_order(o, sorted@),
            is_left_chain(o, sorted@, k as int, hull@),
            top_is_latest(o, sorted@, k as int, hull@),
            k >= 1 ==> hull.len() >= 2,
            k == 0 ==> hull.len() == 1,
        decreases sorted.len() - k,
    {
        let pt = sorted[k];
        let ghost dropped: Option<Vec2> = None;
        let mut settled = false;
        let mut keep = true;
        while !settled && hull.len() > 1
            invariant
                k < sorted.len(),
                hull.len() >= 1,
                is_candidate(o, sorted@, k as int, hull@, pt, dropped),
                settled && keep ==> hull.len() >= 2 && cross(
                    hull[hull.len() - 2],
                    hull[hull.len() - 1],
                    pt,
                ) > 0,
                !keep ==> settled && hull.len() >= 2 && pt == hull@.last(),
            decreases hull.len() + (if settled { 0int } else { 1int }),
        {
            let last_pt = hull[hull.len() - 1];
            let second_last_pt = hull[hull.len() - 2];
            match orientation(second_last_pt, last_pt, pt) {
                Orientation::CounterClockwise => {
                    settled = true;
                },
                Orientation::Clockwise => {
                    proof {
                        lemma_drop(o, sorted@, k as int, hull@, pt, dropped);
                        dropped = Some(hull@.last());
                    }
                    hull.pop();
                },
                Orientation::Collinear => {
                    if length_squared(second_last_pt, pt) > length_squared(
                        second_last_pt,
                        last_pt,
                    ) {
                        proof {
                            lemma_drop(o, sorted@, k as int, hull@, pt, dropped);
                            dropped = Some(hull@.last());
                        }
                        hull.pop();
                    } else {
                        proof {
                            lemma_nearer_candidate_is_top(
                                o,
                                sorted@,
                                k as int,
                                hull@,
                                pt,
                                dropped,
                            );
                        }
                        keep = false;
                        settled = true;
                    }
                },
            }
        }
        if keep {
            proof {
                lemma_push(o, sorted@, k as int, hull@, pt, dropped);
            }
            hull.push(pt);
        } else {
            proof {
                lemma_skip(o, sorted@, k as int, hull@, pt, dropped);
            }
        }
        k += 1;
    }
    hull
}

} // verus!
