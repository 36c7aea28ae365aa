use stroids::geometry::Vec2;
use stroids::hull::{convex_hull, Hull};
use stroids::sat::{
    check_for_collision, dot_product, get_all_normals, hull_at_orientation, normalized_normal,
    project, HullCollision, Projection, Rotation, Transform, WorldVec2, ROTATION_ONE,
};

fn pt(x: i32, y: i32) -> Vec2 {
    Vec2 { x, y }
}

fn wp(x: i64, y: i64) -> WorldVec2 {
    WorldVec2 { x, y }
}

fn unturned(x: i32, y: i32) -> Transform {
    Transform { translation: pt(x, y), rotation: Rotation { cos: ROTATION_ONE, sin: 0 } }
}

fn turned(x: i32, y: i32, cos: i16, sin: i16) -> Transform {
    Transform { translation: pt(x, y), rotation: Rotation { cos, sin } }
}

fn square(half: i32) -> Hull {
    Hull::from_bb(pt(half, half), pt(-half, half), pt(-half, -half), pt(half, -half))
}

const EIGHTH_TURN: i16 = 11585;

#[test]
fn unit_squares_apart_do_not_collide() {
    // Unit squares, two units to the unit length: centres 1.5 apart.
    let s = square(1);
    assert_eq!(check_for_collision(&s, &unturned(0, 0), &s, &unturned(3, 0)), None);
}

#[test]
fn unit_squares_half_a_unit_apart_collide() {
    let s = square(1);
    assert_eq!(
        check_for_collision(&s, &unturned(0, 0), &s, &unturned(1, 0)),
        Some(HullCollision)
    );
}

#[test]
fn squares_that_touch_collide() {
    let s = square(1);
    assert!(check_for_collision(&s, &unturned(0, 0), &s, &unturned(2, 0)).is_some());
    assert!(check_for_collision(&s, &unturned(0, 0), &s, &unturned(2, 2)).is_some());
    assert!(check_for_collision(&s, &unturned(0, 0), &s, &unturned(2, 3)).is_none());
}

#[test]
fn squares_turned_an_eighth_inside_their_diagonal() {
    let s = square(100);
    let a = turned(0, 0, EIGHTH_TURN, EIGHTH_TURN);
    assert!(check_for_collision(&s, &a, &s, &turned(282, 0, EIGHTH_TURN, EIGHTH_TURN)).is_some());
    assert!(check_for_collision(&s, &a, &s, &turned(0, -282, EIGHTH_TURN, EIGHTH_TURN)).is_some());
}

#[test]
fn squares_turned_an_eighth_outside_their_diagonal() {
    let s = square(100);
    let a = turned(0, 0, EIGHTH_TURN, EIGHTH_TURN);
    assert!(check_for_collision(&s, &a, &s, &turned(283, 0, EIGHTH_TURN, EIGHTH_TURN)).is_none());
    assert!(check_for_collision(&s, &a, &s, &turned(0, -283, EIGHTH_TURN, EIGHTH_TURN)).is_none());
}

#[test]
fn turned_square_near_a_corner_whose_boxes_overlap() {
    let s = square(100);
    let a = unturned(0, 0);
    assert!(check_for_collision(&s, &a, &s, &turned(180, 180, EIGHTH_TURN, EIGHTH_TURN)).is_none());
    assert!(check_for_collision(&s, &a, &s, &turned(170, 170, EIGHTH_TURN, EIGHTH_TURN)).is_some());
}

#[test]
fn collision_does_not_depend_on_the_order() {
    let s = square(100);
    let t = convex_hull(&vec![pt(0, 0), pt(300, 0), pt(0, 50)]);
    let places = [
        unturned(0, 0),
        unturned(150, 0),
        unturned(390, 10),
        turned(250, 140, EIGHTH_TURN, EIGHTH_TURN),
        turned(-95, -120, 0, ROTATION_ONE),
        turned(-400, 0, -ROTATION_ONE, 0),
        turned(40, -160, 14189, -8192),
    ];
    let mut some = 0;
    let mut none = 0;
    for ta in places.iter() {
        for tb in places.iter() {
            let ab = check_for_collision(&s, ta, &t, tb);
            let ba = check_for_collision(&t, tb, &s, ta);
            assert_eq!(ab, ba);
            if ab.is_some() {
                some += 1;
            } else {
                none += 1;
            }
        }
    }
    assert!(some > 0 && none > 0);
}

#[test]
fn a_hull_without_points_collides_with_nothing() {
    let s = square(1);
    let empty = Hull::default();
    assert!(check_for_collision(&empty, &unturned(0, 0), &s, &unturned(0, 0)).is_none());
    assert!(check_for_collision(&s, &unturned(0, 0), &empty, &unturned(0, 0)).is_none());
    assert!(check_for_collision(&empty, &unturned(0, 0), &empty, &unturned(0, 0)).is_none());
}

#[test]
fn a_hull_of_one_point_collides_with_nothing() {
    let s = square(5);
    let dot = convex_hull(&vec![pt(0, 0)]);
    assert!(check_for_collision(&dot, &unturned(0, 0), &s, &unturned(0, 0)).is_none());
    assert!(check_for_collision(&s, &unturned(0, 0), &dot, &unturned(0, 0)).is_none());
    assert!(check_for_collision(&dot, &unturned(0, 0), &dot, &unturned(0, 0)).is_none());
}

#[test]
fn a_segment_collides_with_what_it_crosses() {
    let s = square(5);
    let segment = convex_hull(&vec![pt(0, 0), pt(10, 0)]);
    assert!(check_for_collision(&segment, &unturned(0, 0), &s, &unturned(0, 0)).is_some());
    assert!(check_for_collision(&segment, &unturned(6, 0), &s, &unturned(0, 0)).is_none());
    assert!(check_for_collision(&segment, &unturned(0, 6), &s, &unturned(0, 0)).is_none());
}

#[test]
fn collision_at_the_limits_of_the_coordinates() {
    let big = square(i32::MAX);
    // The first spans 0 and up in x, the second -1 and down: one apart.
    assert!(check_for_collision(&big, &unturned(i32::MAX, 0), &big, &unturned(i32::MIN, 0)).is_none());
    // Moved one to the right, the second reaches 0 and they touch.
    assert!(
        check_for_collision(&big, &unturned(i32::MAX, 0), &big, &unturned(i32::MIN + 1, 0)).is_some()
    );
    let small = square(1);
    let far = unturned(i32::MAX, i32::MIN);
    let near = unturned(i32::MIN, i32::MAX);
    assert!(check_for_collision(&small, &far, &small, &near).is_none());
    let t = turned(i32::MIN, i32::MIN, i16::MIN, i16::MIN);
    assert!(check_for_collision(&big, &t, &big, &t).is_some());
}

#[test]
fn vertices_are_rotated_then_moved() {
    let hull = convex_hull(&vec![pt(0, 0), pt(10, 0)]);
    let one = ROTATION_ONE as i64;
    // A quarter turn, then three to the right: (10, 0) goes to (0, 10), then (3, 10).
    let placed = hull_at_orientation(&hull, &turned(3, 0, 0, ROTATION_ONE));
    assert_eq!(placed, vec![wp(3 * one, 0), wp(3 * one, 10 * one), wp(3 * one, 0)]);
    let unrotated = hull_at_orientation(&hull, &unturned(-2, 5));
    assert_eq!(unrotated, vec![wp(-2 * one, 5 * one), wp(8 * one, 5 * one), wp(-2 * one, 5 * one)]);
    let general = hull_at_orientation(&square(1), &turned(1, 2, 3, 4));
    assert_eq!(general[0], wp(3 - 4 + one, 4 + 3 + 2 * one));
}

#[test]
fn normal_is_the_edge_turned_a_quarter() {
    assert_eq!(normalized_normal(wp(3, 0), wp(0, 0)), Some(wp(0, 3)));
    assert_eq!(normalized_normal(wp(0, 0), wp(0, 5)), Some(wp(5, 0)));
    assert_eq!(normalized_normal(wp(1, 2), wp(4, 6)), Some(wp(4, -3)));
}

#[test]
fn an_edge_without_length_has_no_normal() {
    assert_eq!(normalized_normal(wp(7, -7), wp(7, -7)), None);
}

#[test]
fn normals_skip_edges_without_length() {
    let pts = vec![wp(0, 0), wp(2, 0), wp(2, 0), wp(2, 2), wp(0, 0)];
    assert_eq!(get_all_normals(&pts), vec![wp(0, -2), wp(2, 0), wp(-2, 2)]);
    assert!(get_all_normals(&vec![wp(1, 1), wp(1, 1)]).is_empty());
    assert!(get_all_normals(&vec![wp(1, 1)]).is_empty());
    assert!(get_all_normals(&Vec::new()).is_empty());
}

#[test]
fn projection_spans_the_least_and_greatest_place() {
    let shape = vec![wp(1, 1), wp(4, 0), wp(-2, 3)];
    let p = project(&shape, &wp(1, 0));
    assert_eq!((p.min, p.max), (-2, 4));
    let q = project(&shape, &wp(2, 3));
    assert_eq!((q.min, q.max), (5, 8));
    assert_eq!(dot_product(&wp(2, 3), &wp(-2, 3)), 5);
}

#[test]
fn projection_of_nothing_is_empty() {
    let p = project(&Vec::new(), &wp(1, 0));
    assert_eq!((p.min, p.max), (i128::MAX, i128::MIN));
    assert!(!p.overlaps(&Projection { min: -5, max: 5 }));
}

#[test]
fn shadows_overlap_when_they_share_a_place() {
    let a = Projection { min: 0, max: 10 };
    assert!(a.overlaps(&Projection { min: 10, max: 20 }));
    assert!(a.overlaps(&Projection { min: -5, max: 0 }));
    assert!(a.overlaps(&Projection { min: 3, max: 4 }));
    assert!(a.overlaps(&Projection { min: -3, max: 40 }));
    assert!(!a.overlaps(&Projection { min: 11, max: 20 }));
    assert!(!a.overlaps(&Projection { min: -5, max: -1 }));
}
