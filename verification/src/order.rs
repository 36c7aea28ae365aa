//! The start of the hull construction: the lowest point of a point set, and
//! the other points in the order of the scan around it.

use vstd::prelude::*;
use vstd::seq_lib::{to_multiset_build, to_multiset_insert};
use crate::geometry::{above, before, comes_before, strictly_before, Vec2};
use crate::turns::{
    lemma_before_total, lemma_before_transitive, lemma_strictly_before_transitive,
};

verus! {

/// `o` is the point of `points` with the least `y`, and among those with the
/// least `x`.
pub open spec fn is_lowest(points: Seq<Vec2>, o: Vec2) -> bool {
    &&& points.contains(o)
    &&& forall|i: int| 0 <= i < points.len() ==> #[trigger] points[i] == o || above(o, points[i])
}

/// `s` holds the points of `points` other than `o`, and no others.
pub open spec fn holds_the_others(points: Seq<Vec2>, o: Vec2, s: Seq<Vec2>) -> bool {
    &&& forall|i: int| 0 <= i < s.len() ==> above(o, #[trigger] s[i]) && points.contains(s[i])
    &&& forall|j: int| 0 <= j < points.len() && #[trigger] points[j] != o ==> s.contains(points[j])
}

/// Tells the points other than `o`.
pub open spec fn is_other(o: Vec2) -> spec_fn(Vec2) -> bool {
    |p: Vec2| p != o
}

/// The points of `points` other than `o`, in the order of `points`.
pub open spec fn others(points: Seq<Vec2>, o: Vec2) -> Seq<Vec2> {
    points.filter(is_other(o))
}

/// `s` is in the order of the scan around `o`: by polar angle, and at equal
/// angle the nearer point first.
pub open spec fn in_scan_order(o: Vec2, s: Seq<Vec2>) -> bool {
    forall|i: int, j: int| 0 <= i < j < s.len() ==> #[trigger] before(o, s[i], s[j])
}

/// The lowest point of a non-empty point set, the leftmost of several.
pub fn lowest_point(points: &Vec<Vec2>) -> (o: Vec2)
    requires
        points.len() > 0,
    ensures
        is_lowest(points@, o),
{
    let mut origin = points[0];
    let mut i: usize = 1;
    while i < points.len()
        invariant
            1 <= i <= points.len(),
            exists|j: int| 0 <= j < i && points[j] == origin,
            forall|j: int| 0 <= j < i ==> #[trigger] points[j] == origin || above(origin, points[j]),
        decreases points.len() - i,
    {
        let pt = points[i];
        if pt.y < origin.y || (pt.y == origin.y && pt.x < origin.x) {
            origin = pt;
        }
        i += 1;
    }
    origin
}

/// The points of `points` other than `o`, in the order of the scan around
/// `o`.
pub fn sorted_around(points: &Vec<Vec2>, o: Vec2) -> (s: Vec<Vec2>)
    requires
        is_lowest(points@, o),
    ensures
        s@.to_multiset() == others(points@, o).to_multiset(),
        holds_the_others(points@, o, s@),
        in_scan_order(o, s@),
{
    let mut out: Vec<Vec2> = Vec::new();
    assert(points@.take(0) =~= Seq::<Vec2>::empty());
    assert(others(Seq::<Vec2>::empty(), o) =~= Seq::<Vec2>::empty()) by {
        reveal(Seq::filter);
    }
    let mut k: usize = 0;
    while k < points.len()
        invariant
            k <= points.len(),
            is_lowest(points@, o),
            in_scan_order(o, out@),
            out@.to_multiset() == others(points@.take(k as int), o).to_multiset(),
            forall|i: int| 0 <= i < out.len() ==> above(o, #[trigger] out[i]) && points@.contains(out[i]),
            forall|j: int| 0 <= j < k && #[trigger] points[j] != o ==> out@.contains(points[j]),
        decreases points.len() - k,
    {
        let pt = points[k];
        proof {
            let scanned = points@.take(k as int);
            assert(points@.take(k as int + 1) =~= scanned.push(pt));
            scanned.lemma_filter_push(pt, is_other(o));
            if pt != o {
                assert(others(scanned.push(pt), o) == others(scanned, o).push(pt));
                to_multiset_build(others(scanned, o), pt);
            } else {
                assert(others(scanned.push(pt), o) == others(scanned, o));
            }
        }
        if pt != o {
            // The place of the point: after every point that comes no later.
            let mut pos: usize = 0;
            let mut end: usize = out.len();
            while pos < end
                invariant
                    pos <= end <= out.len(),
                    above(o, pt),
                    in_scan_order(o, out@),
                    forall|i: int| 0 <= i < out.len() ==> above(o, #[trigger] out[i]),
                    forall|i: int| 0 <= i < pos ==> before(o, #[trigger] out[i], pt),
                    forall|i: int|
                        end <= i < out.len() ==> strictly_before(o, pt, #[trigger] out[i]),
                decreases end - pos,
            {
                let mid = pos + (end - pos) / 2;
                if comes_before(o, pt, out[mid]) {
                    proof {
                        assert forall|i: int| mid <= i < out.len() implies strictly_before(
                            o,
                            pt,
                            #[trigger] out[i],
                        ) by {
                            if i > mid {
                                assert(before(o, out[mid as int], out[i]));
                                lemma_strictly_before_transitive(o, pt, out[mid as int], out[i]);
                            }
                        }
                    }
                    end = mid;
                } else {
                    proof {
                        lemma_before_total(o, pt, out[mid as int]);
                        assert forall|i: int| 0 <= i < mid + 1 implies before(
                            o,
                            #[trigger] out[i],
                            pt,
                        ) by {
                            if i < mid {
                                assert(before(o, out[i], out[mid as int]));
                                lemma_before_transitive(o, out[i], out[mid as int], pt);
                            }
                        }
                    }
                    pos = mid + 1;
                }
            }
            let ghost old_out = out@;
            out.insert(pos, pt);
            proof {
                to_multiset_insert(old_out, pos as int, pt);
                assert(above(o, pt));
                assert(points@[k as int] == pt);
                assert forall|i: int, j: int| 0 <= i < j < out.len() implies #[trigger] before(
                    o,
                    out[i],
                    out[j],
                ) by {
                    if j < pos {
                        assert(out[i] == old_out[i] && out[j] == old_out[j]);
                        assert(before(o, old_out[i], old_out[j]));
                    } else if j == pos {
                        assert(out[i] == old_out[i]);
                    } else if i < pos {
                        assert(out[i] == old_out[i] && out[j] == old_out[j - 1]);
                        assert(before(o, old_out[i], old_out[j - 1]));
                    } else if i == pos {
                        assert(out[j] == old_out[j - 1]);
                        assert(strictly_before(o, pt, old_out[j - 1]));
                    } else {
                        assert(out[i] == old_out[i - 1] && out[j] == old_out[j - 1]);
                        assert(before(o, old_out[i - 1], old_out[j - 1]));
                    }
                }
                assert forall|i: int| 0 <= i < out.len() implies above(o, #[trigger] out[i])
                    && points@.contains(out[i]) by {
                    if i < pos {
                        assert(out[i] == old_out[i]);
                    } else if i > pos {
                        assert(out[i] == old_out[i - 1]);
                    }
                }
                assert forall|j: int| 0 <= j < k + 1 && #[trigger] points[j] != o implies out@.contains(
                    points[j],
                ) by {
                    if j < k {
                        let i = choose|i: int| 0 <= i < old_out.len() && old_out[i] == points[j];
                        if i < pos {
                            assert(out[i] == points[j]);
                        } else {
                            assert(out[i + 1] == points[j]);
                        }
                    } else {
                        assert(out[pos as int] == points[j]);
                    }
                }
            }
        }
        k += 1;
    }
    assert(points@.take(points.len() as int) =~= points@);
    out
}

} // verus!
