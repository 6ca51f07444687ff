//! Collision-query tests: separated pairs report nothing, known
//! overlaps report the analytic normal and depth.

use quadphys::{get_collision, query_collision, CollisionQuery, Quad, SweepingCollider, EPA_TOLERANCE, SCALE};
use quadphys::vec2::{Vec2, WideVec2};

fn fx(v: f64) -> i64 {
    (v * SCALE as f64).round() as i64
}

fn quad_at(x: f64, y: f64, sx: f64, sy: f64, rot: f64, dynamic: bool) -> Quad {
    Quad {
        position: Vec2 { x: fx(x), y: fx(y) },
        velocity: Vec2 { x: 0, y: 0 },
        rotation: fx(rot),
        angular_velocity: 0,
        rot_cos: (rot.cos() * SCALE as f64).round() as i64,
        rot_sin: (rot.sin() * SCALE as f64).round() as i64,
        scale: Vec2 { x: fx(sx), y: fx(sy) },
        dynamic,
    }
}

#[test]
fn separated_squares_no_collision() {
    let a = quad_at(0.0, 0.0, 1.0, 1.0, 0.0, true);
    let b = quad_at(3.0, 0.0, 1.0, 1.0, 0.0, false);
    assert!(get_collision(&a, &b).is_none());
    assert!(get_collision(&b, &a).is_none());
}

#[test]
fn separated_rotated_rectangles_no_collision() {
    let a = quad_at(-1.0, -1.0, 1.0, 2.0, 0.7, true);
    let b = quad_at(2.0, 1.5, 1.5, 0.5, -0.3, true);
    assert!(get_collision(&a, &b).is_none());
}

#[test]
fn separated_far_apart_no_collision() {
    let a = quad_at(-200.0, -200.0, 1.0, 1.0, 0.0, true);
    let b = quad_at(200.0, 200.0, 1.0, 1.0, 0.0, true);
    assert!(get_collision(&a, &b).is_none());
}

#[test]
fn half_overlapping_squares_depth_and_normal() {
    let a = quad_at(0.0, 0.0, 1.0, 1.0, 0.0, true);
    let b = quad_at(0.5, 0.0, 1.0, 1.0, 0.0, true);
    let c = get_collision(&a, &b).expect("overlapping squares must collide");
    // analytic depth 0.5 (the reported value carries the tolerance bias)
    let depth = (c.depth - EPA_TOLERANCE) as f64 / SCALE as f64;
    assert!((depth - 0.5).abs() < 1e-3, "depth {depth}");
    let nx = c.normal.x as f64 / SCALE as f64;
    let ny = c.normal.y as f64 / SCALE as f64;
    let norm = (nx * nx + ny * ny).sqrt();
    assert!((norm - 1.0).abs() < 1e-4, "norm {norm}");
    assert!(ny.abs() < 1e-3 && (nx.abs() - 1.0).abs() < 1e-3, "normal ({nx}, {ny})");
}

#[test]
fn vertical_overlap_depth_and_normal() {
    let a = quad_at(0.0, 0.0, 1.0, 1.0, 0.0, true);
    let b = quad_at(0.0, 0.75, 1.0, 1.0, 0.0, true);
    let c = get_collision(&a, &b).expect("overlapping squares must collide");
    let depth = (c.depth - EPA_TOLERANCE) as f64 / SCALE as f64;
    assert!((depth - 0.25).abs() < 1e-3, "depth {depth}");
    let nx = c.normal.x as f64 / SCALE as f64;
    let ny = c.normal.y as f64 / SCALE as f64;
    assert!(nx.abs() < 1e-3 && (ny.abs() - 1.0).abs() < 1e-3, "normal ({nx}, {ny})");
}

#[test]
fn coincident_centers_still_report_collision() {
    // degenerate start direction: centers coincide exactly
    let a = quad_at(0.0, 0.0, 1.0, 1.0, 0.0, true);
    let b = quad_at(0.0, 0.0, 1.0, 1.0, 0.0, false);
    let c = get_collision(&a, &b).expect("coincident squares overlap");
    let depth = (c.depth - EPA_TOLERANCE) as f64 / SCALE as f64;
    assert!((depth - 1.0).abs() < 1e-2, "depth {depth}");
}

#[test]
fn rotated_square_collides_where_axis_aligned_would_not() {
    // a diagonal (rotated 45 degrees) unit square reaches sqrt(2)/2 along x
    let a = quad_at(0.0, 0.0, 1.0, 1.0, std::f64::consts::FRAC_PI_4, true);
    let b = quad_at(1.15, 0.0, 1.0, 1.0, 0.0, false);
    // corner-to-face gap: 0.7071 + 0.5 = 1.2071 > 1.15, so they overlap
    assert!(get_collision(&a, &b).is_some());
    // moved further away they separate
    let b2 = quad_at(1.25, 0.0, 1.0, 1.0, 0.0, false);
    assert!(get_collision(&a, &b2).is_none());
}

#[test]
fn swept_colliders_cover_the_travel_path() {
    // a small square swept across a thin wall overlaps it even though
    // neither endpoint does
    let a = quad_at(-1.0, 0.0, 0.2, 0.2, 0.0, true);
    let wall = quad_at(0.0, 0.0, 0.1, 10.0, 0.0, false);
    assert!(get_collision(&a, &wall).is_none());
    let swept_a = SweepingCollider {
        collider: &a,
        position_a: Vec2 { x: fx(-1.0), y: 0 },
        position_b: Vec2 { x: fx(1.0), y: 0 },
    };
    let swept_wall = SweepingCollider {
        collider: &wall,
        position_a: Vec2 { x: 0, y: 0 },
        position_b: Vec2 { x: 0, y: 0 },
    };
    assert!(get_collision(&swept_a, &swept_wall).is_some());
}

#[test]
fn bodies_at_the_coordinate_limits_still_resolve_queries() {
    // the supported range reaches 256 world units in every direction
    let a = quad_at(-255.0, -255.0, 2.0, 2.0, 0.4, true);
    let b = quad_at(255.0, 255.0, 2.0, 2.0, -0.4, true);
    assert!(get_collision(&a, &b).is_none());
    let c = quad_at(-254.5, -255.0, 2.0, 2.0, 0.0, true);
    let hit = get_collision(&quad_at(-255.0, -255.0, 2.0, 2.0, 0.0, true), &c)
        .expect("neighbours at the far corner overlap");
    let depth = (hit.depth - EPA_TOLERANCE) as f64 / SCALE as f64;
    assert!((depth - 1.5).abs() < 1e-3, "depth {depth}");
}

#[test]
fn support_ties_break_toward_the_first_corner() {
    // straight down, bottom-left and bottom-right tie: the
    // enumeration order (bottom-left, top-left, bottom-right,
    // top-right) keeps bottom-left
    let q = quad_at(0.0, 0.0, 1.0, 1.0, 0.0, true);
    let down = WideVec2 { x: 0, y: -(SCALE as i128) };
    let r = q.support_corner(down);
    assert_eq!((r.x, r.y), (fx(-0.5), fx(-0.5)));
    // straight left, bottom-left and top-left tie: bottom-left again
    let left = WideVec2 { x: -(SCALE as i128), y: 0 };
    let r = q.support_corner(left);
    assert_eq!((r.x, r.y), (fx(-0.5), fx(-0.5)));
    // unambiguous directions pick the matching corner
    let up_right = WideVec2 { x: SCALE as i128, y: SCALE as i128 };
    let r = q.support_corner(up_right);
    assert_eq!((r.x, r.y), (fx(0.5), fx(0.5)));
}

#[test]
fn rotated_support_reaches_the_turned_corner() {
    // a unit square turned 45 degrees reaches sqrt(2)/2 along x
    let q = quad_at(0.0, 0.0, 1.0, 1.0, std::f64::consts::FRAC_PI_4, true);
    let right = WideVec2 { x: SCALE as i128, y: 0 };
    let r = q.support_corner(right);
    let reach = r.x as f64 / SCALE as f64;
    assert!((reach - 0.7071).abs() < 1e-3, "reach {reach}");
}

#[test]
fn query_spells_out_the_verdict() {
    // disjoint pairs are answered with a proved separation
    let a = quad_at(0.0, 0.0, 1.0, 1.0, 0.0, true);
    let b = quad_at(3.0, 0.0, 1.0, 1.0, 0.0, false);
    assert_eq!(query_collision(&a, &b), CollisionQuery::Separated);
    // overlapping pairs with a proved contact, agreeing with get_collision
    let c = quad_at(0.5, 0.0, 1.0, 1.0, 0.0, true);
    match query_collision(&a, &c) {
        CollisionQuery::Contact(hit) => {
            assert_eq!(Some(hit), get_collision(&a, &c));
            let depth = (hit.depth - EPA_TOLERANCE) as f64 / SCALE as f64;
            assert!((depth - 0.5).abs() < 1e-3, "depth {depth}");
        },
        other => panic!("expected a contact, got {other:?}"),
    }
}

#[test]
fn swept_support_ties_keep_the_end_position() {
    // both swept placements project equally along a direction at a
    // right angle to the sweep: the end position wins
    let q = quad_at(0.0, 0.0, 1.0, 1.0, 0.0, true);
    let swept = SweepingCollider {
        collider: &q,
        position_a: Vec2 { x: 0, y: 0 },
        position_b: Vec2 { x: fx(2.0), y: 0 },
    };
    let up = WideVec2 { x: 0, y: SCALE as i128 };
    let r = swept.swept_support(up);
    assert_eq!(r.y, fx(0.5));
    assert!(r.x >= fx(1.5), "end placement kept, x = {}", r.x as f64 / SCALE as f64);
    // an unambiguous direction picks the matching end of the sweep
    let left = WideVec2 { x: -(SCALE as i128), y: 0 };
    let l = swept.swept_support(left);
    assert_eq!(l.x, fx(-0.5));
}

#[test]
fn depth_is_always_positive() {
    let a = quad_at(0.0, 0.0, 2.0, 1.0, 0.3, true);
    let b = quad_at(0.6, 0.2, 1.0, 1.5, -0.2, true);
    if let Some(c) = get_collision(&a, &b) {
        assert!(c.depth > 0);
    }
    let c = get_collision(&a, &a).expect("a shape overlaps itself");
    assert!(c.depth > 0);
}
