//! Integrator and contact-solver tests: gravity, resting contact,
//! static immobility, correction distribution and swept-mode
//! tunneling.

use quadphys::{App, Quad, SCALE, EPA_TOLERANCE};
use quadphys::app::{position_correction, resolve_body, normal_velocity, velocity_correction};
use quadphys::vec2::Vec2;

fn fx(v: f64) -> i64 {
    (v * SCALE as f64).round() as i64
}

fn world(v: i64) -> f64 {
    v as f64 / SCALE as f64
}

fn quad_at(x: f64, y: f64, sx: f64, sy: f64, dynamic: bool) -> Quad {
    Quad {
        position: Vec2 { x: fx(x), y: fx(y) },
        velocity: Vec2 { x: 0, y: 0 },
        rotation: 0,
        angular_velocity: 0,
        rot_cos: SCALE,
        rot_sin: 0,
        scale: Vec2 { x: fx(sx), y: fx(sy) },
        dynamic,
    }
}

fn scene(quads: Vec<Quad>, gravity_y: f64, sweeping: bool) -> App {
    App {
        quads,
        old_quads: Vec::new(),
        gravity: Vec2 { x: 0, y: fx(gravity_y) },
        sweeping_colliders: sweeping,
    }
}

#[test]
fn gravity_accelerates_dynamic_bodies() {
    let mut app = scene(vec![quad_at(0.0, 5.0, 1.0, 1.0, true)], -9.81, false);
    let ts = fx(0.01);
    app.fixed_update(ts);
    let v = world(app.quads[0].velocity.y);
    assert!((v - (-9.81 * 0.01)).abs() < 1e-3, "velocity {v}");
    // position follows the new velocity
    let y = world(app.quads[0].position.y);
    assert!((y - (5.0 - 9.81 * 0.01 * 0.01)).abs() < 1e-3, "position {y}");
}

#[test]
fn separated_step_is_exactly_semi_implicit_euler() {
    // a lone body is trivially separated: the step is exactly one
    // gravity increment and one position increment, in fixed point
    let start = quad_at(0.0, 5.0, 1.0, 1.0, true);
    let mut app = scene(vec![start], -9.81, false);
    let ts = fx(0.01);
    app.fixed_update(ts);
    let expect_vy = (fx(-9.81) as i128 * ts as i128 / SCALE as i128) as i64;
    assert_eq!(app.quads[0].velocity.y, expect_vy);
    assert_eq!(app.quads[0].velocity.x, 0);
    let expect_y = start.position.y + (expect_vy as i128 * ts as i128 / SCALE as i128) as i64;
    assert_eq!(app.quads[0].position.y, expect_y);
    assert_eq!(app.quads[0].position.x, 0);
}

#[test]
fn fired_flag_tracks_overlap() {
    let ts = fx(0.01);
    // an overlapping partner fires the contact
    let overlapping = vec![quad_at(0.0, 0.0, 1.0, 1.0, true), quad_at(0.5, 0.0, 1.0, 1.0, false)];
    let (_, fired) = resolve_body(&overlapping, 0, ts, false);
    assert!(fired);
    // a separated partner does not, and the body is untouched
    let apart = vec![quad_at(0.0, 0.0, 1.0, 1.0, true), quad_at(3.0, 0.0, 1.0, 1.0, false)];
    let (body, fired) = resolve_body(&apart, 0, ts, false);
    assert!(!fired);
    assert_eq!(body, apart[0]);
}

#[test]
fn separated_pair_is_left_unchanged_by_resolution() {
    // resolving an already separated pair changes nothing, twice over
    let snapshot = vec![quad_at(0.0, 0.0, 1.0, 1.0, true), quad_at(3.0, 0.0, 1.0, 1.0, false)];
    let ts = fx(0.01);
    let (first, fired_first) = resolve_body(&snapshot, 0, ts, false);
    assert!(!fired_first);
    assert_eq!(first, snapshot[0]);
    let again = vec![first, snapshot[1]];
    let (second, fired_second) = resolve_body(&again, 0, ts, false);
    assert!(!fired_second);
    assert_eq!(second, snapshot[0]);
}

#[test]
fn zeroing_cancels_approach_velocity() {
    // a body falling into the ground has its downward velocity
    // cancelled along the contact normal by the resolution pass
    let mut falling = quad_at(0.0, -1.3, 1.0, 1.0, true);
    falling.velocity = Vec2 { x: 0, y: fx(-2.0) };
    let ground = quad_at(0.0, -2.0, 5.0, 0.5, false);
    let mut app = scene(vec![falling, ground], 0.0, false);
    app.fixed_update(fx(0.01));
    let vy = world(app.quads[0].velocity.y);
    assert!(vy > -1e-2, "residual downward velocity {vy}");
}

#[test]
fn statics_never_move() {
    let mut moving_static = quad_at(0.0, 0.4, 1.0, 1.0, false);
    moving_static.velocity = Vec2 { x: 0, y: fx(-1.0) };
    let original = moving_static;
    let dynamic = quad_at(0.0, -0.4, 1.0, 1.0, true);
    let mut app = scene(vec![moving_static, dynamic], -9.81, false);
    for _ in 0..50 {
        app.fixed_update(fx(0.01));
    }
    // the static body is bit-for-bit untouched, velocity included
    assert_eq!(app.quads[0], original);
}

#[test]
fn static_contact_corrects_only_the_dynamic_member() {
    // the static partner absorbs nothing: the whole correction lands
    // on the dynamic body (dynamic_count 1), twice what a dynamic
    // partner would leave it (dynamic_count 2)
    let normal = Vec2 { x: 0, y: SCALE };
    let depth = fx(0.5);
    let against_static = position_correction(false, normal, depth);
    let against_dynamic = position_correction(true, normal, depth);
    assert_eq!(against_static.1, depth);
    assert_eq!(against_dynamic.1, depth / 2);
    assert_eq!(against_static.0, 0);
}

#[test]
fn static_body_falling_onto_dynamic_pushes_it_out() {
    // an overlapping static body above a dynamic one: only the
    // dynamic body moves, and it moves out of the overlap
    let mut pressing = quad_at(0.0, 0.8, 1.0, 1.0, false);
    pressing.velocity = Vec2 { x: 0, y: fx(-1.0) };
    let original_static = pressing;
    let dynamic = quad_at(0.0, 0.0, 1.0, 1.0, true);
    let mut app = scene(vec![pressing, dynamic], 0.0, false);
    app.fixed_update(fx(0.01));
    assert_eq!(app.quads[0], original_static);
    let y = world(app.quads[1].position.y);
    assert!(y < -0.15, "dynamic body pushed down, y = {y}");
}

#[test]
fn resting_contact_converges_on_the_ground() {
    // a unit square dropped from (0, 5) onto a 5 x 0.5 slab at
    // (0, -2) comes to rest on its top surface, y close to -1.25
    let mut app = scene(
        vec![quad_at(0.0, 5.0, 1.0, 1.0, true), quad_at(0.0, -2.0, 5.0, 0.5, false)],
        -9.81,
        false,
    );
    let ts = fx(0.01);
    for _ in 0..600 {
        app.fixed_update(ts);
    }
    let y = world(app.quads[0].position.y);
    let vy = world(app.quads[0].velocity.y);
    assert!((y - (-1.25)).abs() < 0.02, "resting height {y}");
    assert!(vy.abs() < 0.15, "resting velocity {vy}");
    // and it stays there
    for _ in 0..100 {
        app.fixed_update(ts);
    }
    let y2 = world(app.quads[0].position.y);
    assert!((y2 - (-1.25)).abs() < 0.02, "settled height {y2}");
}

#[test]
fn fast_body_tunnels_without_sweeping_and_is_caught_with_it() {
    let make = |sweeping: bool| {
        let mut bullet = quad_at(-2.25, 0.0, 0.2, 0.2, true);
        bullet.velocity = Vec2 { x: fx(50.0), y: 0 };
        scene(vec![bullet, quad_at(0.0, 0.0, 0.1, 10.0, false)], 0.0, sweeping)
    };
    let ts = fx(0.01);
    // discrete mode: 0.5 units per step sails through the thin wall
    let mut discrete = make(false);
    for _ in 0..10 {
        discrete.fixed_update(ts);
    }
    assert!(world(discrete.quads[0].position.x) > 1.0, "tunneled through");
    // continuous mode: the swept hull hits the wall and the bullet stops
    let mut continuous = make(true);
    for _ in 0..10 {
        continuous.fixed_update(ts);
    }
    let x = world(continuous.quads[0].position.x);
    assert!(x < 0.0, "caught before the wall, x = {x}");
    let vx = world(continuous.quads[0].velocity.x);
    assert!(vx.abs() < 1.0, "stopped, vx = {vx}");
}

#[test]
fn normal_velocity_signs() {
    // approaching along the normal is nonnegative, separating negative
    let n = Vec2 { x: 0, y: SCALE };
    let approaching = normal_velocity(Vec2 { x: 0, y: fx(-3.0) }, n);
    assert_eq!(approaching, fx(3.0));
    let separating = normal_velocity(Vec2 { x: 0, y: fx(2.0) }, n);
    assert_eq!(separating, fx(-2.0));
}

#[test]
fn velocity_correction_matches_approach_speed() {
    let n = Vec2 { x: 0, y: SCALE };
    let c = velocity_correction(n, fx(3.0));
    assert_eq!(c.0, 0);
    assert_eq!(c.1, fx(3.0));
}

#[test]
fn rotation_advances_by_one_step_of_angular_velocity() {
    let mut spinner = quad_at(0.0, 0.0, 1.0, 1.0, true);
    spinner.angular_velocity = fx(std::f64::consts::PI);
    let mut app = scene(vec![spinner], 0.0, false);
    let ts = fx(0.01);
    app.fixed_update(ts);
    let rot = world(app.quads[0].rotation);
    assert!((rot - 0.01 * std::f64::consts::PI).abs() < 1e-3, "rotation {rot}");
    // the orientation components are the caller's to refresh
    assert_eq!(app.quads[0].rot_cos, SCALE);
    assert_eq!(app.quads[0].rot_sin, 0);
    assert_eq!(app.quads[0].angular_velocity, spinner.angular_velocity);
}

#[test]
fn empty_scene_steps_without_effect() {
    let mut app = scene(Vec::new(), -9.81, false);
    app.fixed_update(fx(0.01));
    assert_eq!(app.quads.len(), 0);
}

#[test]
fn default_scene_matches_the_documented_layout() {
    let app = App::default();
    assert_eq!(app.quads.len(), 2);
    assert!(app.quads[0].dynamic);
    assert!(!app.quads[1].dynamic);
    assert_eq!(app.quads[1].position.y, fx(-2.0));
    assert_eq!(app.quads[1].scale.x, fx(5.0));
    assert!(!app.sweeping_colliders);
    assert!((world(app.gravity.y) - (-9.81)).abs() < 1e-3);
    let q = Quad::default();
    assert_eq!(q.scale, Vec2 { x: SCALE, y: SCALE });
    assert!(q.dynamic);
}

#[test]
fn reported_depth_carries_the_bias() {
    // the overlap of the default dynamic square with itself is its
    // full side, plus the convergence bias
    let q = Quad::default();
    let c = quadphys::get_collision(&q, &q).expect("self overlap");
    assert_eq!(c.depth, SCALE + EPA_TOLERANCE);
}
