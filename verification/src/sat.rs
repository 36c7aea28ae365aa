//! The overlap test of two convex boundaries by separating axes.
//!
//! Each boundary is first placed in the world by its transform. A rotation is
//! given by its cosine and sine in fixed point, so that placed vertices are
//! whole numbers of `1 / ROTATION_ONE` of the unit of the boundary. The
//! normals of the edges are taken at the length of their edges: whether two
//! projections overlap does not depend on the length of the axis.

use vstd::prelude::*;
use crate::geometry::{lemma_product_bound, wide_mul, Vec2};
use crate::hull::Hull;

verus! {

/// The fixed-point value of one: a cosine or sine of `c / ROTATION_ONE` is
/// held as `c`.
pub const ROTATION_ONE: i16 = 16384;

/// The largest coordinate, in size, of a placed vertex.
pub const WORLD_LIMIT: i64 = 0x1_0000_0000_0000;

/// The largest coordinate, in size, of an axis.
pub const AXIS_LIMIT: i64 = 0x2_0000_0000_0000;

/// A rotation, by its cosine and sine in units of `1 / ROTATION_ONE`.
#[derive(Clone, Copy, Debug, PartialEq, Eq, Structural)]
pub struct Rotation {
    pub cos: i16,
    pub sin: i16,
}

/// Where an entity is and how it is turned.
#[derive(Clone, Copy, Debug, PartialEq, Eq, Structural)]
pub struct Transform {
    pub translation: Vec2,
    pub rotation: Rotation,
}

/// A point or vector of the world, in units of `1 / ROTATION_ONE`.
#[derive(Clone, Copy, Debug, PartialEq, Eq, Structural)]
pub struct WorldVec2 {
    pub x: i64,
    pub y: i64,
}

/// The witness of an overlap.
#[derive(Debug, PartialEq, Eq, Copy, Clone)]
pub struct HullCollision;

/// The shadow of a shape on an axis, from `min` to `max`.
#[derive(Clone, Copy, Debug)]
pub struct Projection {
    pub min: i128,
    pub max: i128,
}

/// The `x` of the vertex `v` placed by `t`: rotated, then moved.
pub open spec fn world_x(v: Vec2, t: Transform) -> int {
    t.rotation.cos * v.x - t.rotation.sin * v.y + ROTATION_ONE * t.translation.x
}

/// The `y` of the vertex `v` placed by `t`: rotated, then moved.
pub open spec fn world_y(v: Vec2, t: Transform) -> int {
    t.rotation.sin * v.x + t.rotation.cos * v.y + ROTATION_ONE * t.translation.y
}

/// The vertex `v` placed by `t`.
pub open spec fn world_point(v: Vec2, t: Transform) -> WorldVec2 {
    WorldVec2 { x: world_x(v, t) as i64, y: world_y(v, t) as i64 }
}

/// The boundary `h` placed by `t`, vertex by vertex.
pub open spec fn world_shape(h: Seq<Vec2>, t: Transform) -> Seq<WorldVec2> {
    Seq::new(h.len(), |i: int| world_point(h[i], t))
}

/// Both coordinates of `v` are within `limit` in size.
pub open spec fn is_bounded(v: WorldVec2, limit: int) -> bool {
    -limit <= v.x <= limit && -limit <= v.y <= limit
}

/// Every vertex of `shape` is within `WORLD_LIMIT`.
pub open spec fn is_world_shape(shape: Seq<WorldVec2>) -> bool {
    forall|i: int| 0 <= i < shape.len() ==> is_bounded(#[trigger] shape[i], WORLD_LIMIT as int)
}

/// The normal of the edge between `v1` and `v2`: the edge `v1 - v2` turned a
/// quarter counter-clockwise.
pub open spec fn edge_normal(v1: WorldVec2, v2: WorldVec2) -> WorldVec2 {
    WorldVec2 { x: (v2.y - v1.y) as i64, y: (v1.x - v2.x) as i64 }
}

/// The normals of the first `n` edges of `pts`, without those of edges of no
/// length.
pub open spec fn normals_upto(pts: Seq<WorldVec2>, n: int) -> Seq<WorldVec2>
    decreases n,
{
    if n <= 0 {
        Seq::empty()
    } else if pts[n - 1] != pts[n] {
        normals_upto(pts, n - 1).push(edge_normal(pts[n - 1], pts[n]))
    } else {
        normals_upto(pts, n - 1)
    }
}

/// The candidate axes of `pts`: one normal for each edge that has a length.
pub open spec fn all_normals(pts: Seq<WorldVec2>) -> Seq<WorldVec2> {
    normals_upto(pts, pts.len() - 1)
}

/// The place of `v` along `axis`.
#[verifier::opaque]
pub open spec fn dot(axis: WorldVec2, v: WorldVec2) -> int {
    axis.x * v.x + axis.y * v.y
}

/// `p` is the shadow of the non-empty `shape` on `axis`: the least and the
/// greatest place of a vertex along it.
pub open spec fn is_shadow(shape: Seq<WorldVec2>, axis: WorldVec2, p: Projection) -> bool {
    &&& exists|i: int| 0 <= i < shape.len() && #[trigger] dot(axis, shape[i]) == p.min
    &&& exists|i: int| 0 <= i < shape.len() && #[trigger] dot(axis, shape[i]) == p.max
    &&& forall|i: int| 0 <= i < shape.len() ==> p.min <= #[trigger] dot(axis, shape[i]) <= p.max
}

/// The shadows of `a` and `b` on `axis` overlap: some vertex of `a` is no
/// further along than some vertex of `b`, and some vertex of `a` is no less
/// far along than some vertex of `b`.
pub open spec fn overlap_on(axis: WorldVec2, a: Seq<WorldVec2>, b: Seq<WorldVec2>) -> bool {
    &&& exists|i: int, j: int|
        0 <= i < a.len() && 0 <= j < b.len() && #[trigger] dot(axis, a[i]) <= #[trigger] dot(
            axis,
            b[j],
        )
    &&& exists|i: int, j: int|
        0 <= i < a.len() && 0 <= j < b.len() && #[trigger] dot(axis, a[i]) >= #[trigger] dot(
            axis,
            b[j],
        )
}

/// The shadows of `a` and `b` overlap on every axis of `axes`.
pub open spec fn overlap_on_all(axes: Seq<WorldVec2>, a: Seq<WorldVec2>, b: Seq<WorldVec2>) -> bool {
    forall|k: int| 0 <= k < axes.len() ==> overlap_on(#[trigger] axes[k], a, b)
}

/// The two placed shapes overlap: each has an edge with a length, and on no
/// normal of an edge of either are their shadows apart.
pub open spec fn shapes_collide(a: Seq<WorldVec2>, b: Seq<WorldVec2>) -> bool {
    &&& all_normals(a).len() > 0
    &&& all_normals(b).len() > 0
    &&& overlap_on_all(all_normals(a), a, b)
    &&& overlap_on_all(all_normals(b), a, b)
}

/// The boundary `hull_a` placed by `ta` and the boundary `hull_b` placed by
/// `tb` overlap.
pub open spec fn collides(hull_a: Seq<Vec2>, ta: Transform, hull_b: Seq<Vec2>, tb: Transform) -> bool {
    shapes_collide(world_shape(hull_a, ta), world_shape(hull_b, tb))
}

/// Whether two shadows overlap does not depend on the order of the shapes.
pub proof fn lemma_overlap_symmetric(axis: WorldVec2, a: Seq<WorldVec2>, b: Seq<WorldVec2>)
    ensures
        overlap_on(axis, a, b) == overlap_on(axis, b, a),
{
    if overlap_on(axis, a, b) {
        let (i, j) = choose|i: int, j: int|
            0 <= i < a.len() && 0 <= j < b.len() && #[trigger] dot(axis, a[i]) <= #[trigger] dot(
                axis,
                b[j],
            );
        let (i2, j2) = choose|i: int, j: int|
            0 <= i < a.len() && 0 <= j < b.len() && #[trigger] dot(axis, a[i]) >= #[trigger] dot(
                axis,
                b[j],
            );
        assert(dot(axis, b[j2]) <= dot(axis, a[i2]));
        assert(dot(axis, b[j]) >= dot(axis, a[i]));
    }
    if overlap_on(axis, b, a) {
        let (i, j) = choose|i: int, j: int|
            0 <= i < b.len() && 0 <= j < a.len() && #[trigger] dot(axis, b[i]) <= #[trigger] dot(
                axis,
                a[j],
            );
        let (i2, j2) = choose|i: int, j: int|
            0 <= i < b.len() && 0 <= j < a.len() && #[trigger] dot(axis, b[i]) >= #[trigger] dot(
                axis,
                a[j],
            );
        assert(dot(axis, a[j2]) <= dot(axis, b[i2]));
        assert(dot(axis, a[j]) >= dot(axis, b[i]));
    }
}

/// The overlap test does not depend on the order of its two boundaries.
pub proof fn lemma_collides_symmetric(
    hull_a: Seq<Vec2>,
    ta: Transform,
    hull_b: Seq<Vec2>,
    tb: Transform,
)
    ensures
        collides(hull_a, ta, hull_b, tb) == collides(hull_b, tb, hull_a, ta),
{
    let a = world_shape(hull_a, ta);
    let b = world_shape(hull_b, tb);
    assert forall|axes: Seq<WorldVec2>| overlap_on_all(axes, a, b) == overlap_on_all(axes, b, a) by {
        assert forall|k: int| 0 <= k < axes.len() implies overlap_on(#[trigger] axes[k], a, b)
            == overlap_on(axes[k], b, a) by {
            lemma_overlap_symmetric(axes[k], a, b);
        }
    }
}

/// A placed vertex is within `WORLD_LIMIT`.
pub proof fn lemma_world_point_bounded(v: Vec2, t: Transform)
    ensures
        -WORLD_LIMIT <= world_x(v, t) <= WORLD_LIMIT,
        -WORLD_LIMIT <= world_y(v, t) <= WORLD_LIMIT,
        is_bounded(world_point(v, t), WORLD_LIMIT as int),
{
    let c = t.rotation.cos as int;
    let s = t.rotation.sin as int;
    lemma_product_bound(c, v.x as int, 0x8000, 0x8000_0000);
    lemma_product_bound(s, v.y as int, 0x8000, 0x8000_0000);
    lemma_product_bound(s, v.x as int, 0x8000, 0x8000_0000);
    lemma_product_bound(c, v.y as int, 0x8000, 0x8000_0000);
    lemma_product_bound(ROTATION_ONE as int, t.translation.x as int, 0x4000, 0x8000_0000);
    lemma_product_bound(ROTATION_ONE as int, t.translation.y as int, 0x4000, 0x8000_0000);
    assert(0x8000int * 0x8000_0000int == 0x4000_0000_0000int);
    assert(0x4000int * 0x8000_0000int == 0x2000_0000_0000int);
}

impl Projection {
    /// Whether the two shadows have a place in common.
    pub fn overlaps(&self, other: &Projection) -> (r: bool)
        ensures
            r == (self.min <= other.max && self.max >= other.min),
    {
        self.min <= other.max && self.max >= other.min
    }
}

/// The vertices of `hull` placed in the world by `transform`: each rotated,
/// then moved.
pub fn hull_at_orientation(hull: &Hull, transform: &Transform) -> (vertices: Vec<WorldVec2>)
    ensures
        vertices@ == world_shape(hull@, *transform),
        is_world_shape(vertices@),
{
    let raw_vertices = hull.path();
    let mut vertices: Vec<WorldVec2> = Vec::new();
    let cos: i64 = transform.rotation.cos as i64;
    let sin: i64 = transform.rotation.sin as i64;
    let tx: i64 = transform.translation.x as i64;
    let ty: i64 = transform.translation.y as i64;
    let one: i64 = ROTATION_ONE as i64;
    let mut i: usize = 0;
    while i < raw_vertices.len()
        invariant
            i <= raw_vertices.len(),
            raw_vertices@ == hull@,
            cos == transform.rotation.cos,
            sin == transform.rotation.sin,
            tx == transform.translation.x,
            ty == transform.translation.y,
            one == ROTATION_ONE,
            vertices.len() == i,
            forall|j: int| 0 <= j < i ==> #[trigger] vertices[j] == world_point(hull@[j], *transform),
            is_world_shape(vertices@),
        decreases raw_vertices.len() - i,
    {
        let v = raw_vertices[i];
        let vx: i64 = v.x as i64;
        let vy: i64 = v.y as i64;
        proof {
            lemma_world_point_bounded(v, *transform);
            lemma_product_bound(cos as int, vx as int, 0x8000, 0x8000_0000);
            lemma_product_bound(sin as int, vy as int, 0x8000, 0x8000_0000);
            lemma_product_bound(sin as int, vx as int, 0x8000, 0x8000_0000);
            lemma_product_bound(cos as int, vy as int, 0x8000, 0x8000_0000);
            lemma_product_bound(one as int, tx as int, 0x4000, 0x8000_0000);
            lemma_product_bound(one as int, ty as int, 0x4000, 0x8000_0000);
            assert(0x8000int * 0x8000_0000int == 0x4000_0000_0000int);
            assert(0x4000int * 0x8000_0000int == 0x2000_0000_0000int);
        }
        let x: i64 = cos * vx - sin * vy + one * tx;
        let y: i64 = sin * vx + cos * vy + one * ty;
        vertices.push(WorldVec2 { x, y });
        i += 1;
    }
    assert(vertices@ =~= world_shape(hull@, *transform));
    vertices
}

/// The normal of the edge between `v1` and `v2`, at the length of the edge;
/// none for an edge of no length, which has no direction.
pub fn normalized_normal(v1: WorldVec2, v2: WorldVec2) -> (normal: Option<WorldVec2>)
    requires
        is_bounded(v1, WORLD_LIMIT as int),
        is_bounded(v2, WORLD_LIMIT as int),
    ensures
        v1 == v2 ==> normal is None,
        v1 != v2 ==> normal == Some(edge_normal(v1, v2)),
        normal is Some ==> is_bounded(normal->Some_0, AXIS_LIMIT as int),
{
    if v1.x == v2.x && v1.y == v2.y {
        None
    } else {
        Some(WorldVec2 { x: v2.y - v1.y, y: v1.x - v2.x })
    }
}

/// The candidate axes of the placed shape `pts`: the normals of its edges
/// that have a length, in the order of the edges.
pub fn get_all_normals(pts: &Vec<WorldVec2>) -> (normals: Vec<WorldVec2>)
    requires
        is_world_shape(pts@),
    ensures
        normals@ == all_normals(pts@),
        forall|k: int| 0 <= k < normals.len() ==> is_bounded(#[trigger] normals[k], AXIS_LIMIT as int),
{
    let mut normals: Vec<WorldVec2> = Vec::new();
    if pts.len() < 2 {
        assert(normals_upto(pts@, pts@.len() - 1) =~= Seq::<WorldVec2>::empty());
        return normals;
    }
    let mut i: usize = 1;
    while i < pts.len()
        invariant
            1 <= i <= pts.len(),
            is_world_shape(pts@),
            normals@ == normals_upto(pts@, i - 1),
            forall|k: int| 0 <= k < normals.len() ==> is_bounded(#[trigger] normals[k], AXIS_LIMIT as int),
        decreases pts.len() - i,
    {
        match normalized_normal(pts[i - 1], pts[i]) {
            Some(normal) => {
                normals.push(normal);
            },
            None => {},
        }
        i += 1;
    }
    normals
}

/// The place of `v` along `axis`.
pub fn dot_product(axis: &WorldVec2, v: &WorldVec2) -> (p: i128)
    requires
        is_bounded(*axis, AXIS_LIMIT as int),
        is_bounded(*v, WORLD_LIMIT as int),
    ensures
        p == dot(*axis, *v),
{
    proof {
        reveal(dot);
        lemma_product_bound(axis.x as int, v.x as int, AXIS_LIMIT as int, WORLD_LIMIT as int);
        lemma_product_bound(axis.y as int, v.y as int, AXIS_LIMIT as int, WORLD_LIMIT as int);
        assert(0x2_0000_0000_0000int * 0x1_0000_0000_0000int
            == 0x2_0000_0000_0000_0000_0000_0000int);
    }
    wide_mul(axis.x, v.x) + wide_mul(axis.y, v.y)
}

/// The shadow of `shape` on `axis`. Of an empty shape it is the empty shadow,
/// from the greatest number down to the least, which overlaps no shadow of a
/// shape.
pub fn project(shape: &Vec<WorldVec2>, axis: &WorldVec2) -> (p: Projection)
    requires
        is_world_shape(shape@),
        is_bounded(*axis, AXIS_LIMIT as int),
    ensures
        shape.len() == 0 ==> p.min == i128::MAX && p.max == i128::MIN,
        shape.len() > 0 ==> is_shadow(shape@, *axis, p),
{
    let mut max_p: i128 = i128::MIN;
    let mut min_p: i128 = i128::MAX;
    let mut i: usize = 0;
    while i < shape.len()
        invariant
            i <= shape.len(),
            is_world_shape(shape@),
            is_bounded(*axis, AXIS_LIMIT as int),
            i == 0 ==> min_p == i128::MAX && max_p == i128::MIN,
            i > 0 ==> exists|j: int| 0 <= j < i && #[trigger] dot(*axis, shape[j]) == min_p,
            i > 0 ==> exists|j: int| 0 <= j < i && #[trigger] dot(*axis, shape[j]) == max_p,
            forall|j: int| 0 <= j < i ==> min_p <= #[trigger] dot(*axis, shape[j]) <= max_p,
        decreases shape.len() - i,
    {
        let p = dot_product(axis, &shape[i]);
        if p < min_p {
            min_p = p;
        }
        if p > max_p {
            max_p = p;
        }
        assert(min_p <= dot(*axis, shape[i as int]) <= max_p);
        i += 1;
    }
    Projection { min: min_p, max: max_p }
}

/// Whether the shadows of `a` and `b` overlap on every axis of `axes`.
fn overlap_on_every(axes: &Vec<WorldVec2>, a: &Vec<WorldVec2>, b: &Vec<WorldVec2>) -> (r: bool)
    requires
        is_world_shape(a@),
        is_world_shape(b@),
        a.len() > 0,
        b.len() > 0,
        forall|k: int| 0 <= k < axes.len() ==> is_bounded(#[trigger] axes[k], AXIS_LIMIT as int),
    ensures
        r == overlap_on_all(axes@, a@, b@),
{
    let mut k: usize = 0;
    while k < axes.len()
        invariant
            k <= axes.len(),
            is_world_shape(a@),
            is_world_shape(b@),
            a.len() > 0,
            b.len() > 0,
            forall|k: int| 0 <= k < axes.len() ==> is_bounded(#[trigger] axes[k], AXIS_LIMIT as int),
            forall|m: int| 0 <= m < k ==> overlap_on(#[trigger] axes[m], a@, b@),
        decreases axes.len() - k,
    {
        let axis = axes[k];
        let proj_a = project(a, &axis);
        let proj_b = project(b, &axis);
        let overlapping = proj_a.overlaps(&proj_b);
        proof {
            let ia = choose|i: int| 0 <= i < a.len() && #[trigger] dot(axis, a[i]) == proj_a.min;
            let ja = choose|i: int| 0 <= i < a.len() && #[trigger] dot(axis, a[i]) == proj_a.max;
            let ib = choose|i: int| 0 <= i < b.len() && #[trigger] dot(axis, b[i]) == proj_b.min;
            let jb = choose|i: int| 0 <= i < b.len() && #[trigger] dot(axis, b[i]) == proj_b.max;
            if overlapping {
                assert(dot(axis, a[ia]) <= dot(axis, b[jb]));
                assert(dot(axis, a[ja]) >= dot(axis, b[ib]));
                assert(overlap_on(axis, a@, b@));
            } else {
                if overlap_on(axis, a@, b@) {
                    let (i, j) = choose|i: int, j: int|
                        0 <= i < a.len() && 0 <= j < b.len() && #[trigger] dot(axis, a@[i])
                            <= #[trigger] dot(axis, b@[j]);
                    let (i2, j2) = choose|i: int, j: int|
                        0 <= i < a.len() && 0 <= j < b.len() && #[trigger] dot(axis, a@[i])
                            >= #[trigger] dot(axis, b@[j]);
                    assert(proj_a.min <= dot(axis, a[i]) && dot(axis, b[j]) <= proj_b.max);
                    assert(proj_a.max >= dot(axis, a[i2]) && dot(axis, b[j2]) >= proj_b.min);
                    assert(false);
                }
            }
        }
        if !overlapping {
            return false;
        }
        k += 1;
    }
    true
}

/// Tells whether the boundary `hull_a` placed by `hull_a_transform` and the
/// boundary `hull_b` placed by `hull_b_transform` overlap.
///
/// They overlap where their shadows overlap on the normal of every edge of
/// either. A boundary without an edge that has a length (empty, or a single
/// point) overlaps nothing.
pub fn check_for_collision(
    hull_a: &Hull,
    hull_a_transform: &Transform,
    hull_b: &Hull,
    hull_b_transform: &Transform,
) -> (collision: Option<HullCollision>)
    ensures
        collision is Some == collides(hull_a@, *hull_a_transform, hull_b@, *hull_b_transform),
{
    let a = hull_at_orientation(hull_a, hull_a_transform);
    let b = hull_at_orientation(hull_b, hull_b_transform);
    let axes_a = get_all_normals(&a);
    let axes_b = get_all_normals(&b);
    if axes_a.len() == 0 || axes_b.len() == 0 {
        return None;
    }
    assert(a.len() > 0 && b.len() > 0) by {
        if a.len() == 0 {
            assert(normals_upto(a@, a@.len() - 1) =~= Seq::<WorldVec2>::empty());
        }
        if b.len() == 0 {
            assert(normals_upto(b@, b@.len() - 1) =~= Seq::<WorldVec2>::empty());
        }
    }
    if !overlap_on_every(&axes_a, &a, &b) {
        return None;
    }
    if !overlap_on_every(&axes_b, &a, &b) {
        return None;
    }
    Some(HullCollision)
}

} // verus!
