//! Convex collision boundaries: the closed polygon around a point set, built
//! by a scan around its lowest point.

use vstd::prelude::*;
use crate::geometry::{above, before, cross, dist2, Vec2};
use crate::order::{holds_the_others, in_scan_order, is_lowest, lowest_point, sorted_around};
use crate::raster::{extract_visible_pixels, RasterBuffer};
use crate::scan::{edge_turn, graham_scan, is_left_chain, top_is_latest, turn_at};
use crate::turns::{lemma_cross_cyclic, lemma_cross_swap, lemma_dist2_nonnegative};

verus! {

/// The boundary of a convex polygon: its vertices in order, the first one
/// repeated at the end.
#[derive(Debug)]
pub struct Hull {
    path: Vec<Vec2>,
}

impl View for Hull {
    type V = Seq<Vec2>;

    closed spec fn view(&self) -> Seq<Vec2> {
        self.path@
    }
}

impl Clone for Hull {
    /// A boundary with the same points.
    fn clone(&self) -> (hull: Hull)
        ensures
            hull@ == self@,
    {
        proof {
            use_type_invariant(self);
        }
        let mut path: Vec<Vec2> = Vec::new();
        let mut i: usize = 0;
        while i < self.path.len()
            invariant
                i <= self.path.len(),
                path@ == self.path@.take(i as int),
            decreases self.path.len() - i,
        {
            path.push(self.path[i]);
            assert(path@ =~= self.path@.take(i as int + 1));
            i += 1;
        }
        assert(path@ =~= self.path@);
        Hull { path }
    }
}

impl Default for Hull {
    /// The boundary without points.
    fn default() -> (hull: Hull)
        ensures
            hull@.len() == 0,
    {
        Hull { path: Vec::new() }
    }
}

impl Hull {
    /// Every boundary is closed.
    #[verifier::type_invariant]
    spec fn closed(&self) -> bool {
        self.path@.len() == 0 || self.path@.first() == self.path@.last()
    }
}

/// The first and the last point of a boundary that is not empty are the same.
pub open spec fn is_closed(h: Seq<Vec2>) -> bool {
    h.len() == 0 || h.first() == h.last()
}

/// Every point of `points` is left of each edge of `h`, or on it: none lies
/// on the outward side of an edge.
pub open spec fn encloses(h: Seq<Vec2>, points: Seq<Vec2>) -> bool {
    forall|j: int, i: int|
        0 <= j < h.len() - 1 && 0 <= i < points.len() ==> #[trigger] edge_turn(h, j, points[i])
            >= 0
}

/// The boundary never turns right: it winds counter-clockwise.
pub open spec fn turns_left(h: Seq<Vec2>) -> bool {
    forall|j: int| 1 <= j < h.len() - 1 ==> #[trigger] turn_at(h, j) >= 0
}

/// The boundary turns strictly left at every vertex, the first included: no
/// vertex lies on the line of its neighbours.
pub open spec fn is_strictly_convex(h: Seq<Vec2>) -> bool {
    &&& forall|j: int| 1 <= j < h.len() - 1 ==> #[trigger] turn_at(h, j) > 0
    &&& cross(h[h.len() - 2], h[0], h[1]) > 0
}

/// After the first vertex, the vertices before the closing one come in
/// strictly growing polar angle around the first: the boundary goes round
/// once and does not cross itself.
pub open spec fn goes_round_once(h: Seq<Vec2>) -> bool {
    forall|i: int, j: int| 1 <= i < j < h.len() - 1 ==> #[trigger] cross(h[0], h[i], h[j]) > 0
}

/// `h` is the convex hull of `points`, from their lowest point round
/// counter-clockwise and back to it.
///
/// Of no points it is empty. Else it is closed, starts at the lowest point,
/// has only points of `points` as vertices, has no point of `points` on the
/// outward side of an edge, never turns right and goes round once. With
/// three vertices or more it turns strictly left at each of them. Of points
/// on one line it is the segment from the lowest point to the farthest and
/// back; of one point, that point twice.
pub open spec fn is_convex_hull_of(h: Seq<Vec2>, points: Seq<Vec2>) -> bool {
    if points.len() == 0 {
        h.len() == 0
    } else {
        &&& h.len() >= 2
        &&& is_closed(h)
        &&& is_lowest(points, h[0])
        &&& forall|j: int| 0 <= j < h.len() ==> points.contains(#[trigger] h[j])
        &&& encloses(h, points)
        &&& turns_left(h)
        &&& goes_round_once(h)
        &&& h.len() >= 4 ==> is_strictly_convex(h)
        &&& h.len() == 3 ==> h[1] != h[0] && forall|i: int|
            0 <= i < points.len() ==> dist2(h[0], #[trigger] points[i]) <= dist2(h[0], h[1])
        &&& h.len() == 2 ==> forall|i: int| 0 <= i < points.len() ==> #[trigger] points[i] == h[0]
    }
}

/// Closing the stack of the scan with its first point gives the convex hull.
proof fn lemma_closed_stack_is_hull(points: Seq<Vec2>, o: Vec2, s: Seq<Vec2>, h: Seq<Vec2>)
    requires
        points.len() > 0,
        is_lowest(points, o),
        holds_the_others(points, o, s),
        in_scan_order(o, s),
        is_left_chain(o, s, s.len() as int, h),
        top_is_latest(o, s, s.len() as int, h),
        s.len() >= 1 ==> h.len() >= 2,
        s.len() == 0 ==> h.len() == 1,
    ensures
        is_convex_hull_of(h.push(o), points),
{
    let n = h.len() as int;
    let g = h.push(o);
    assert(g.len() == n + 1);
    assert(forall|j: int| 0 <= j < n ==> g[j] == h[j]);
    assert(g[n] == o);
    assert(g.first() == o && g.last() == o);
    assert forall|j: int| 0 <= j < g.len() implies points.contains(#[trigger] g[j]) by {
        if 1 <= j < n {
            assert(above(o, h[j]) && s.contains(h[j]));
            let i = choose|i: int| 0 <= i < s.len() && s[i] == h[j];
            assert(points.contains(s[i]));
        }
    }
    assert forall|j: int, i: int| 0 <= j < g.len() - 1 && 0 <= i < points.len() implies #[trigger] edge_turn(
        g,
        j,
        points[i],
    ) >= 0 by {
        let p = points[i];
        if p == o {
            if j == 0 {
                lemma_cross_swap(o, g[1], g[1]);
            } else if j < n - 1 {
                assert(cross(o, h[j], h[j + 1]) > 0);
                lemma_cross_cyclic(o, h[j], h[j + 1]);
            } else {
                lemma_cross_swap(g[j], o, o);
            }
        } else {
            assert(s.contains(points[i]));
            let i2 = choose|i2: int| 0 <= i2 < s.len() && s[i2] == p;
            if j < n - 1 {
                assert(edge_turn(h, j, s[i2]) >= 0);
            } else if n == 1 {
                lemma_cross_swap(o, o, p);
            } else {
                assert(before(o, s[i2], h.last()));
                lemma_cross_cyclic(o, p, h[n - 1]);
            }
        }
    }
    assert forall|j: int| 1 <= j < g.len() - 1 implies #[trigger] turn_at(g, j) >= 0 && (n >= 3
        ==> turn_at(g, j) > 0) by {
        if j < n - 1 {
            assert(turn_at(h, j) > 0);
        } else if n >= 3 {
            assert(cross(o, h[n - 2], h[n - 1]) > 0);
            lemma_cross_cyclic(o, h[n - 2], h[n - 1]);
        } else {
            lemma_cross_swap(o, h[1], h[1]);
        }
    }
    assert forall|i: int, j: int| 1 <= i < j < g.len() - 1 implies #[trigger] cross(
        g[0],
        g[i],
        g[j],
    ) > 0 by {
        assert(cross(o, h[i], h[j]) > 0);
    }
    if n >= 3 {
        assert(cross(o, h[1], h[n - 1]) > 0);
        lemma_cross_cyclic(o, h[1], h[n - 1]);
        assert(is_strictly_convex(g));
    }
    if n == 2 {
        assert(above(o, h[1]));
        assert forall|i: int| 0 <= i < points.len() implies dist2(g[0], #[trigger] points[i])
            <= dist2(g[0], g[1]) by {
            let p = points[i];
            lemma_dist2_nonnegative(o, h[1]);
            if p != o {
                assert(s.contains(points[i]));
                let i2 = choose|i2: int| 0 <= i2 < s.len() && s[i2] == p;
                assert(edge_turn(h, 0, s[i2]) >= 0);
                assert(before(o, s[i2], h.last()));
                lemma_cross_swap(o, h[1], p);
            }
        }
    }
    if n == 1 {
        assert forall|i: int| 0 <= i < points.len() implies #[trigger] points[i] == o by {
            if points[i] != o {
                assert(s.contains(points[i]));
            }
        }
    }
}

/// The convex hull of `pixel_data`, counter-clockwise from the lowest point
/// and closed; empty for no points.
///
/// The lowest point, the leftmost of several, starts the boundary. The other
/// points are scanned by polar angle around it, nearer first at equal angle,
/// and the stack of the scan is closed with the first point.
pub fn convex_hull(pixel_data: &Vec<Vec2>) -> (hull: Hull)
    ensures
        is_convex_hull_of(hull@, pixel_data@),
        encloses(hull@, pixel_data@),
        turns_left(hull@),
        is_closed(hull@),
{
    if pixel_data.len() == 0 {
        return Hull { path: Vec::new() };
    }
    let origin = lowest_point(pixel_data);
    let sorted_pts = sorted_around(pixel_data, origin);
    let mut hull = graham_scan(origin, &sorted_pts);
    proof {
        lemma_closed_stack_is_hull(pixel_data@, origin, sorted_pts@, hull@);
    }
    hull.push(origin);
    Hull { path: hull }
}

impl Hull {
    /// The hull of the visible pixels of `image`; empty where the image is
    /// empty or its buffer is not usable.
    pub fn new(image: &RasterBuffer) -> (hull: Hull)
        ensures
            is_convex_hull_of(hull@, image.visible_points()),
            encloses(hull@, image.visible_points()),
            turns_left(hull@),
            is_closed(hull@),
            !image.is_usable() ==> hull@.len() == 0,
    {
        let image_vec = extract_visible_pixels(image);
        convex_hull(&image_vec)
    }

    /// The boundary of the box with the four given corners, closed: top
    /// right, top left, bottom left, bottom right, and top right again.
    pub fn from_bb(tr: Vec2, tl: Vec2, bl: Vec2, br: Vec2) -> (hull: Hull)
        ensures
            hull@ == seq![tr, tl, bl, br, tr],
            is_closed(hull@),
    {
        let mut path: Vec<Vec2> = Vec::new();
        path.push(tr);
        path.push(tl);
        path.push(bl);
        path.push(br);
        path.push(tr);
        Hull { path }
    }

    /// The points of the boundary, in order. Whatever the boundary, the
    /// first and the last of them are the same.
    pub fn path(&self) -> (path: &Vec<Vec2>)
        ensures
            path@ == self@,
            is_closed(self@),
    {
        proof {
            use_type_invariant(self);
        }
        &self.path
    }
}

/// The boundaries of the five kinds of entity, built once and shared by all
/// entities of a kind.
#[derive(Clone, Debug, Default)]
pub struct CollisionHulls {
    pub ship: Hull,
    pub asteroid_lg: Hull,
    pub asteroid_m: Hull,
    pub asteroid_sm: Hull,
    pub projectile: Hull,
}

impl CollisionHulls {
    /// The boundaries from the images of the ship and of the three sizes of
    /// asteroid, and the box of a projectile, two pixels to each side.
    pub fn new(
        ship: &RasterBuffer,
        asteroid_sm: &RasterBuffer,
        asteroid_m: &RasterBuffer,
        asteroid_lg: &RasterBuffer,
    ) -> (hulls: CollisionHulls)
        ensures
            is_convex_hull_of(hulls.ship@, ship.visible_points()),
            is_convex_hull_of(hulls.asteroid_sm@, asteroid_sm.visible_points()),
            is_convex_hull_of(hulls.asteroid_m@, asteroid_m.visible_points()),
            is_convex_hull_of(hulls.asteroid_lg@, asteroid_lg.visible_points()),
            hulls.projectile@ == seq![
                Vec2 { x: 4, y: 4 },
                Vec2 { x: -4i32, y: 4 },
                Vec2 { x: -4i32, y: -4i32 },
                Vec2 { x: 4, y: -4i32 },
                Vec2 { x: 4, y: 4 },
            ],
    {
        CollisionHulls {
            ship: Hull::new(ship),
            asteroid_sm: Hull::new(asteroid_sm),
            asteroid_m: Hull::new(asteroid_m),
            asteroid_lg: Hull::new(asteroid_lg),
            projectile: Hull::from_bb(
                Vec2 { x: 4, y: 4 },
                Vec2 { x: -4, y: 4 },
                Vec2 { x: -4, y: -4 },
                Vec2 { x: 4, y: -4 },
            ),
        }
    }
}

} // verus!
