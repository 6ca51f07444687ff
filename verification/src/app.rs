//! The fixed-step integrator and iterative contact solver: gravity,
//! all-pairs collision resolution over a double-buffered body list,
//! and position integration.

use vstd::prelude::*;

verus! {

use crate::{
    SCALE,
    COORD_LIMIT,
    DEPTH_LIMIT,
    EPA_TOLERANCE,
    CORR_LIMIT,
    QUAD_LIMIT,
    MAX_PHYSICS_ITERATIONS,
};
use crate::fx::{tdiv, fx_mul, clamp64, clamp_spec, lemma_tdiv_quotient_bound};
use crate::vec2::{Vec2, in_box, dot};
use crate::quad::{Quad, quad_wf, quad_points, lemma_quad_extent};
use crate::collision::{Collider, Collision, get_collision};
use crate::sweeping_collider::{SweepingCollider, swept_points};
use crate::geom::shapes_overlap;

/// A value scaled by a step fraction stays within its own bound.
proof fn lemma_step_bound(a: int, ts: int, m: int)
    requires
        0 <= ts <= SCALE as int,
        m >= 0,
        -m <= a <= m,
    ensures
        -m <= tdiv(a * ts, SCALE as int) <= m,
{
    assert(-((SCALE as int) * m) <= a * ts <= (SCALE as int) * m) by (nonlinear_arith)
        requires
            0 <= ts <= SCALE as int,
            -m <= a <= m,
    ;
    lemma_tdiv_quotient_bound(a * ts, SCALE as int, m);
}

/// `a` scaled by the step fraction `ts / SCALE`.
fn times_step(a: i64, ts: i64) -> (r: i64)
    requires
        -0x400000000000 <= a <= 0x400000000000,
        0 <= ts <= SCALE,
    ensures
        r == tdiv(a * ts, SCALE as int),
        -0x400000000000 <= r <= 0x400000000000,
{
    proof {
        lemma_step_bound(a as int, ts as int, 0x400000000000);
    }
    fx_mul(a, ts)
}

/// The approach speed of a contact: the relative velocity of the pair
/// projected on the reversed collision normal (fixed point).  It is
/// nonnegative exactly when the bodies close in along the normal.
pub fn normal_velocity(rel: Vec2, normal: Vec2) -> (r: i64)
    requires
        in_box(rel, 2 * COORD_LIMIT as int),
        in_box(normal, SCALE as int),
    ensures
        r == tdiv(rel.x * -normal.x + rel.y * -normal.y, SCALE as int),
        -0x8000000 <= r <= 0x8000000,
{
    let nn = normal.vneg();
    let d = dot(rel, nn);
    proof {
        assert(-(SCALE as int) * (4 * COORD_LIMIT) <= rel.x * -normal.x + rel.y * -normal.y <= (
        SCALE as int) * (4 * COORD_LIMIT)) by (nonlinear_arith)
            requires
                -2 * (COORD_LIMIT as int) <= rel.x <= 2 * (COORD_LIMIT as int),
                -2 * (COORD_LIMIT as int) <= rel.y <= 2 * (COORD_LIMIT as int),
                -(SCALE as int) <= normal.x <= SCALE as int,
                -(SCALE as int) <= normal.y <= SCALE as int,
        ;
        lemma_tdiv_quotient_bound(rel.x * -normal.x + rel.y * -normal.y, SCALE as int, 0x8000000);
    }
    crate::fx::tdiv128(d, SCALE as i128)
}

/// The positional correction a firing contact takes away from the
/// body: the collision normal scaled by the depth, divided evenly
/// among the dynamic members of the pair.  The body being resolved is
/// dynamic; a static partner absorbs nothing, so the body takes the
/// whole correction (`dynamic_count` 1), while a dynamic partner
/// halves it (`dynamic_count` 2).
pub fn position_correction(other_dynamic: bool, normal: Vec2, depth: i64) -> (r: (i64, i64))
    requires
        in_box(normal, SCALE as int),
        0 <= depth <= DEPTH_LIMIT + EPA_TOLERANCE,
    ensures
        ({
            let dc = if other_dynamic {
                2int
            } else {
                1int
            };
            r.0 == tdiv(tdiv(normal.x * depth, SCALE as int), dc) && r.1 == tdiv(
                tdiv(normal.y * depth, SCALE as int),
                dc,
            )
        }),
        -CORR_LIMIT <= r.0 <= CORR_LIMIT,
        -CORR_LIMIT <= r.1 <= CORR_LIMIT,
{
    let dc: i64 = if other_dynamic {
        2
    } else {
        1
    };
    proof {
        assert(-(SCALE as int) * (CORR_LIMIT as int) <= normal.x * depth <= (SCALE as int) * (
        CORR_LIMIT as int) && -(SCALE as int) * (CORR_LIMIT as int) <= normal.y * depth <= (
        SCALE as int) * (CORR_LIMIT as int)) by (nonlinear_arith)
            requires
                -(SCALE as int) <= normal.x <= SCALE as int,
                -(SCALE as int) <= normal.y <= SCALE as int,
                0 <= depth <= DEPTH_LIMIT + EPA_TOLERANCE,
        ;
        lemma_tdiv_quotient_bound(normal.x * depth, SCALE as int, CORR_LIMIT as int);
        lemma_tdiv_quotient_bound(normal.y * depth, SCALE as int, CORR_LIMIT as int);
        lemma_tdiv_quotient_bound(tdiv(normal.x * depth, SCALE as int), dc as int, CORR_LIMIT as int);
        lemma_tdiv_quotient_bound(tdiv(normal.y * depth, SCALE as int), dc as int, CORR_LIMIT as int);
        assert((dc as int) * (CORR_LIMIT as int) >= CORR_LIMIT as int) by (nonlinear_arith)
            requires
                dc == 1 || dc == 2,
        ;
    }
    let cx = crate::fx::tdiv128((normal.x as i128) * (depth as i128), SCALE as i128);
    let cy = crate::fx::tdiv128((normal.y as i128) * (depth as i128), SCALE as i128);
    (crate::fx::tdiv64(cx, dc), crate::fx::tdiv64(cy, dc))
}

/// The velocity correction a firing contact takes away from the body:
/// the approach speed `cnvl` redirected along the collision normal,
/// which cancels the relative velocity along the normal up to
/// fixed-point rounding.  Only approaching contacts (`cnvl >= 0`) are
/// corrected: a separating contact is ignored by the solver and this
/// precondition refuses it.
pub fn velocity_correction(normal: Vec2, cnvl: i64) -> (r: (i64, i64))
    requires
        in_box(normal, SCALE as int),
        0 <= cnvl <= 0x8000000,
    ensures
        r.0 == tdiv(cnvl * normal.x, SCALE as int),
        r.1 == tdiv(cnvl * normal.y, SCALE as int),
        -CORR_LIMIT <= r.0 <= CORR_LIMIT,
        -CORR_LIMIT <= r.1 <= CORR_LIMIT,
{
    proof {
        assert(-(SCALE as int) * (CORR_LIMIT as int) <= cnvl * normal.x <= (SCALE as int) * (
        CORR_LIMIT as int) && -(SCALE as int) * (CORR_LIMIT as int) <= cnvl * normal.y <= (
        SCALE as int) * (CORR_LIMIT as int)) by (nonlinear_arith)
            requires
                -(SCALE as int) <= normal.x <= SCALE as int,
                -(SCALE as int) <= normal.y <= SCALE as int,
                0 <= cnvl <= 0x8000000,
        ;
        lemma_tdiv_quotient_bound(cnvl * normal.x, SCALE as int, CORR_LIMIT as int);
        lemma_tdiv_quotient_bound(cnvl * normal.y, SCALE as int, CORR_LIMIT as int);
    }
    (
        crate::fx::tdiv128((cnvl as i128) * (normal.x as i128), SCALE as i128),
        crate::fx::tdiv128((cnvl as i128) * (normal.y as i128), SCALE as i128),
    )
}

/// After the zeroing step of a firing contact, no velocity component
/// along the contact normal points into the other body beyond
/// fixed-point rounding.
///
/// A contact fires when the approach speed `c` (the relative velocity
/// of the pair projected on the reversed unit normal, as
/// [`normal_velocity`] computes it) is nonnegative.  The correction of
/// [`velocity_correction`] then subtracts `c` along the normal from
/// the body's velocity.  This shows the result: the corrected
/// relative velocity's projection on the normal direction is confined
/// to a rounding margin — at most `3 * SCALE + 5 * c` in raw
/// (doubly-scaled) dot units, which is below one part in `SCALE` of
/// the approach speed before the correction — where exact arithmetic
/// would give exactly zero.
pub proof fn lemma_velocity_zeroing(vx: int, vy: int, ox: int, oy: int, nx: int, ny: int)
    requires
        SCALE * SCALE - 5 * SCALE <= nx * nx + ny * ny <= SCALE * SCALE + 3 * SCALE,
        -(SCALE as int) <= nx <= SCALE as int,
        -(SCALE as int) <= ny <= SCALE as int,
        tdiv((ox - vx) * -nx + (oy - vy) * -ny, SCALE as int) >= 0,
    ensures
        ({
            let c = tdiv((ox - vx) * -nx + (oy - vy) * -ny, SCALE as int);
            let vx2 = vx - tdiv(c * nx, SCALE as int);
            let vy2 = vy - tdiv(c * ny, SCALE as int);
            -(3 * SCALE + 5 * c) <= (ox - vx2) * nx + (oy - vy2) * ny <= 3 * SCALE + 5 * c
        }),
{
    let s = SCALE as int;
    let nd = (ox - vx) * -nx + (oy - vy) * -ny;
    let c = tdiv(nd, s);
    let dd = (ox - vx) * nx + (oy - vy) * ny;
    assert(nd == -dd) by (nonlinear_arith)
        requires
            nd == (ox - vx) * -nx + (oy - vy) * -ny,
            dd == (ox - vx) * nx + (oy - vy) * ny,
    ;
    crate::fx::lemma_tdiv_rem(nd, s);
    let r0 = nd - c * s;
    crate::fx::lemma_tdiv_rem(c * nx, s);
    crate::fx::lemma_tdiv_rem(c * ny, s);
    let t1 = tdiv(c * nx, s);
    let t2 = tdiv(c * ny, s);
    let r1 = c * nx - t1 * s;
    let r2 = c * ny - t2 * s;
    let vx2 = vx - t1;
    let vy2 = vy - t2;
    let x = (ox - vx2) * nx + (oy - vy2) * ny;
    let e = nx * nx + ny * ny - s * s;
    // the corrected projection, scaled by SCALE, in closed form
    assert(s * ((ox - vx2) * nx) == s * ((ox - vx) * nx) + (s * t1) * nx) by (nonlinear_arith)
        requires
            vx2 == vx - t1,
    ;
    assert((s * t1) * nx == c * (nx * nx) - r1 * nx) by (nonlinear_arith)
        requires
            s * t1 == c * nx - r1,
    ;
    assert(s * ((oy - vy2) * ny) == s * ((oy - vy) * ny) + (s * t2) * ny) by (nonlinear_arith)
        requires
            vy2 == vy - t2,
    ;
    assert((s * t2) * ny == c * (ny * ny) - r2 * ny) by (nonlinear_arith)
        requires
            s * t2 == c * ny - r2,
    ;
    assert(s * ((ox - vx2) * nx) == s * ((ox - vx) * nx) + c * (nx * nx) - r1 * nx);
    assert(s * ((oy - vy2) * ny) == s * ((oy - vy) * ny) + c * (ny * ny) - r2 * ny);
    assert(s * x == s * ((ox - vx2) * nx) + s * ((oy - vy2) * ny)) by (nonlinear_arith)
        requires
            x == (ox - vx2) * nx + (oy - vy2) * ny,
    ;
    assert(s * dd == s * ((ox - vx) * nx) + s * ((oy - vy) * ny)) by (nonlinear_arith)
        requires
            dd == (ox - vx) * nx + (oy - vy) * ny,
    ;
    assert(c * (nx * nx + ny * ny) == c * (nx * nx) + c * (ny * ny)) by (nonlinear_arith);
    assert(s * x == s * dd + c * (nx * nx + ny * ny) - (r1 * nx + r2 * ny));
    assert(s * dd + c * (s * s) == -(s * r0)) by (nonlinear_arith)
        requires
            dd == -nd,
            nd == c * s + r0,
    ;
    assert(c * (nx * nx + ny * ny) == c * (s * s) + c * e) by (nonlinear_arith)
        requires
            e == nx * nx + ny * ny - s * s,
    ;
    // sign and size of the three error terms
    assert(-5 * s * c <= c * e <= 5 * s * c) by (nonlinear_arith)
        requires
            c >= 0,
            -5 * s <= e <= 3 * s,
            s > 0,
    ;
    assert(-(s * s) <= s * r0 <= s * s) by (nonlinear_arith)
        requires
            -s < r0 < s,
            s > 0,
    ;
    assert(-(s * s) <= r1 * nx <= s * s && -(s * s) <= r2 * ny <= s * s) by (nonlinear_arith)
        requires
            -s < r1 < s,
            -s < r2 < s,
            -s <= nx <= s,
            -s <= ny <= s,
    ;
    assert(-(3 * s + 5 * c) <= x <= 3 * s + 5 * c) by (nonlinear_arith)
        requires
            s * x == -(s * r0) + c * e - (r1 * nx + r2 * ny),
            -5 * s * c <= c * e <= 5 * s * c,
            -(s * s) <= s * r0 <= s * s,
            -(s * s) <= r1 * nx <= s * s,
            -(s * s) <= r2 * ny <= s * s,
            s > 0,
            c >= 0,
    ;
}

/// The value of one gravity application: a dynamic body's velocity
/// gains `gravity * ts`, confined to the coordinate range; a static
/// body is untouched.
pub open spec fn gravity_applied(q: Quad, gravity: Vec2, ts: int) -> Quad {
    if !q.dynamic {
        q
    } else {
        Quad {
            velocity: Vec2 {
                x: clamp_spec(
                    q.velocity.x + tdiv(gravity.x * ts, SCALE as int),
                    COORD_LIMIT as int,
                ) as i64,
                y: clamp_spec(
                    q.velocity.y + tdiv(gravity.y * ts, SCALE as int),
                    COORD_LIMIT as int,
                ) as i64,
            },
            ..q
        }
    }
}

/// Gravity applied to one body: exactly [`gravity_applied`].
pub fn apply_gravity(q: &Quad, gravity: Vec2, ts: i64) -> (r: Quad)
    requires
        quad_wf(*q),
        in_box(gravity, COORD_LIMIT as int),
        0 <= ts <= SCALE,
    ensures
        quad_wf(r),
        r == gravity_applied(*q, gravity, ts as int),
{
    if !q.dynamic {
        return *q;
    }
    proof {
        lemma_step_bound(gravity.x as int, ts as int, COORD_LIMIT as int);
        lemma_step_bound(gravity.y as int, ts as int, COORD_LIMIT as int);
    }
    let gx = times_step(gravity.x, ts);
    let gy = times_step(gravity.y, ts);
    let vx = clamp64(q.velocity.x + gx, COORD_LIMIT);
    let vy = clamp64(q.velocity.y + gy, COORD_LIMIT);
    Quad { velocity: Vec2 { x: vx, y: vy }, ..*q }
}

/// The final integration of one body: a dynamic body moves by
/// `velocity * ts` and turns by `angular_velocity * ts`, confined to
/// the coordinate range; a static body is untouched.
pub fn integrate_quad(q: &Quad, ts: i64) -> (r: Quad)
    requires
        quad_wf(*q),
        0 <= ts <= SCALE,
    ensures
        quad_wf(r),
        !q.dynamic ==> r == *q,
        q.dynamic ==> r == (Quad {
            position: Vec2 {
                x: clamp_spec(
                    q.position.x + tdiv(q.velocity.x * ts, SCALE as int),
                    COORD_LIMIT as int,
                ) as i64,
                y: clamp_spec(
                    q.position.y + tdiv(q.velocity.y * ts, SCALE as int),
                    COORD_LIMIT as int,
                ) as i64,
            },
            rotation: clamp_spec(
                q.rotation + tdiv(q.angular_velocity * ts, SCALE as int),
                COORD_LIMIT as int,
            ) as i64,
            ..*q
        }),
{
    if !q.dynamic {
        return *q;
    }
    proof {
        lemma_step_bound(q.velocity.x as int, ts as int, COORD_LIMIT as int);
        lemma_step_bound(q.velocity.y as int, ts as int, COORD_LIMIT as int);
        lemma_step_bound(q.angular_velocity as int, ts as int, COORD_LIMIT as int);
    }
    let mx = times_step(q.velocity.x, ts);
    let my = times_step(q.velocity.y, ts);
    let mr = times_step(q.angular_velocity, ts);
    Quad {
        position: Vec2 {
            x: clamp64(q.position.x + mx, COORD_LIMIT),
            y: clamp64(q.position.y + my, COORD_LIMIT),
        },
        rotation: clamp64(q.rotation + mr, COORD_LIMIT),
        ..*q
    }
}

/// `v` confined to within [`COORD_LIMIT`] of the anchor `c`.
pub open spec fn rel_clamp(c: int, v: int) -> int {
    if v > c + COORD_LIMIT {
        c + COORD_LIMIT
    } else if v < c - COORD_LIMIT {
        c - COORD_LIMIT
    } else {
        v
    }
}

/// The center a rectangle reports: its position.
pub open spec fn quad_center(q: Quad) -> (int, int) {
    (q.position.x as int, q.position.y as int)
}

/// The hull generators of a rectangle swept along its own velocity
/// for one step (with no accumulated corrections).
pub open spec fn swept_quad_points(q: Quad, ts: int) -> Seq<(int, int)> {
    swept_points(
        quad_points(q),
        quad_center(q),
        q.position.x as int,
        q.position.y as int,
        q.position.x + tdiv(q.velocity.x * ts, SCALE as int),
        q.position.y + tdiv(q.velocity.y * ts, SCALE as int),
    )
}

/// The shapes a pairwise test compares at the start of a pass: the
/// bodies themselves, or their swept hulls in continuous mode.
pub open spec fn pair_overlap(s: Seq<Quad>, i: int, j: int, ts: int, sweeping: bool) -> bool {
    if sweeping {
        shapes_overlap(swept_quad_points(s[i], ts), swept_quad_points(s[j], ts))
    } else {
        shapes_overlap(quad_points(s[i]), quad_points(s[j]))
    }
}

/// The tentative end-of-step position of a body: its position plus
/// the corrections accumulated so far plus one step of its corrected
/// velocity, confined to within [`COORD_LIMIT`] of the current
/// position.
fn swept_end(pos: Vec2, vel: Vec2, pdx: i64, pdy: i64, vdx: i64, vdy: i64, ts: i64) -> (r: Vec2)
    requires
        in_box(pos, COORD_LIMIT as int),
        in_box(vel, COORD_LIMIT as int),
        -0x10000000000000 <= pdx <= 0x10000000000000,
        -0x10000000000000 <= pdy <= 0x10000000000000,
        -0x10000000000000 <= vdx <= 0x10000000000000,
        -0x10000000000000 <= vdy <= 0x10000000000000,
        0 <= ts <= SCALE,
    ensures
        r.x == rel_clamp(pos.x as int, pos.x + pdx + tdiv((vel.x + vdx) * ts, SCALE as int)),
        r.y == rel_clamp(pos.y as int, pos.y + pdy + tdiv((vel.y + vdy) * ts, SCALE as int)),
        -(COORD_LIMIT as int) <= r.x - pos.x <= COORD_LIMIT as int,
        -(COORD_LIMIT as int) <= r.y - pos.y <= COORD_LIMIT as int,
{
    proof {
        lemma_step_bound((vel.x + vdx) as int, ts as int, 0x20000000000000);
        lemma_step_bound((vel.y + vdy) as int, ts as int, 0x20000000000000);
    }
    let sx = crate::fx::tdiv128(((vel.x + vdx) as i128) * (ts as i128), SCALE as i128);
    let sy = crate::fx::tdiv128(((vel.y + vdy) as i128) * (ts as i128), SCALE as i128);
    let rawx = pos.x + pdx + sx;
    let rawy = pos.y + pdy + sy;
    let rx = if rawx > pos.x + COORD_LIMIT {
        pos.x + COORD_LIMIT
    } else if rawx < pos.x - COORD_LIMIT {
        pos.x - COORD_LIMIT
    } else {
        rawx
    };
    let ry = if rawy > pos.y + COORD_LIMIT {
        pos.y + COORD_LIMIT
    } else if rawy < pos.y - COORD_LIMIT {
        pos.y - COORD_LIMIT
    } else {
        rawy
    };
    Vec2 { x: rx, y: ry }
}

/// One body's share of a resolution pass: test it against every other
/// body of the frozen snapshot, accumulate its corrections, and
/// return the corrected body together with whether any contact fired.
///
/// A static body passes through untouched.  A body with no firing
/// contact comes back exactly as it went in, and a dynamic body with
/// no overlapping partner (in the shapes the pass tests) never fires
/// — resolving an already separated body changes nothing, so
/// resolution is idempotent on separated pairs.  Conversely a fired
/// flag certifies that some other body's tested shape overlaps this
/// one's.
pub fn resolve_body(snapshot: &Vec<Quad>, index: usize, ts: i64, sweeping: bool) -> (r: (
    Quad,
    bool,
))
    requires
        index < snapshot@.len(),
        snapshot@.len() <= QUAD_LIMIT,
        forall|k: int| 0 <= k < snapshot@.len() ==> quad_wf(#[trigger] snapshot@[k]),
        0 <= ts <= SCALE,
    ensures
        quad_wf(r.0),
        r.0.dynamic == snapshot@[index as int].dynamic,
        r.0.scale == snapshot@[index as int].scale,
        r.0.rotation == snapshot@[index as int].rotation,
        r.0.angular_velocity == snapshot@[index as int].angular_velocity,
        r.0.rot_cos == snapshot@[index as int].rot_cos,
        r.0.rot_sin == snapshot@[index as int].rot_sin,
        !snapshot@[index as int].dynamic ==> r.0 == snapshot@[index as int] && !r.1,
        !r.1 ==> r.0 == snapshot@[index as int],
        r.1 ==> exists|jj: int|
            0 <= jj < snapshot@.len() && jj != index && #[trigger] pair_overlap(
                snapshot@,
                index as int,
                jj,
                ts as int,
                sweeping,
            ),
        (forall|jj: int|
            0 <= jj < snapshot@.len() && jj != index ==> !pair_overlap(
                snapshot@,
                index as int,
                jj,
                ts as int,
                sweeping,
            )) ==> r.0 == snapshot@[index as int] && !r.1,
{
    let quad = snapshot[index];
    if !quad.dynamic {
        return (quad, false);
    }
    let ghost separated = forall|jj: int|
        0 <= jj < snapshot@.len() && jj != index ==> !pair_overlap(
            snapshot@,
            index as int,
            jj,
            ts as int,
            sweeping,
        );
    let n = snapshot.len();
    let mut pdx: i64 = 0;
    let mut pdy: i64 = 0;
    let mut vdx: i64 = 0;
    let mut vdy: i64 = 0;
    let mut fired = false;
    let mut j: usize = 0;
    while j < n
        invariant
            n == snapshot@.len(),
            index < n,
            n <= QUAD_LIMIT,
            forall|k: int| 0 <= k < snapshot@.len() ==> quad_wf(#[trigger] snapshot@[k]),
            0 <= ts <= SCALE,
            quad == snapshot@[index as int],
            quad.dynamic,
            j <= n,
            -((j as int) * CORR_LIMIT) <= pdx <= (j as int) * CORR_LIMIT,
            -((j as int) * CORR_LIMIT) <= pdy <= (j as int) * CORR_LIMIT,
            -((j as int) * CORR_LIMIT) <= vdx <= (j as int) * CORR_LIMIT,
            -((j as int) * CORR_LIMIT) <= vdy <= (j as int) * CORR_LIMIT,
            separated == (forall|jj: int|
                0 <= jj < snapshot@.len() && jj != index ==> !pair_overlap(
                    snapshot@,
                    index as int,
                    jj,
                    ts as int,
                    sweeping,
                )),
            separated ==> !fired,
            !fired ==> (pdx == 0 && pdy == 0 && vdx == 0 && vdy == 0),
            fired ==> exists|jj: int|
                0 <= jj < snapshot@.len() && jj != index && #[trigger] pair_overlap(
                    snapshot@,
                    index as int,
                    jj,
                    ts as int,
                    sweeping,
                ),
        decreases n - j,
    {
        proof {
            assert((j as int) * CORR_LIMIT <= (QUAD_LIMIT as int) * CORR_LIMIT
                && ((j as int) + 1) * CORR_LIMIT == (j as int) * CORR_LIMIT + CORR_LIMIT
                && (j as int) * CORR_LIMIT >= 0) by (nonlinear_arith)
                requires
                    0 <= j <= QUAD_LIMIT,
            ;
        }
        if j != index {
            let other = snapshot[j];
            let collision_opt: Option<Collision> = if sweeping {
                proof {
                    lemma_quad_extent(quad);
                    lemma_quad_extent(other);
                    lemma_step_bound(quad.velocity.x as int, ts as int, COORD_LIMIT as int);
                    lemma_step_bound(quad.velocity.y as int, ts as int, COORD_LIMIT as int);
                    lemma_step_bound(other.velocity.x as int, ts as int, COORD_LIMIT as int);
                    lemma_step_bound(other.velocity.y as int, ts as int, COORD_LIMIT as int);
                }
                let pb_self = swept_end(quad.position, quad.velocity, pdx, pdy, vdx, vdy, ts);
                let pb_other = swept_end(other.position, other.velocity, 0, 0, 0, 0, ts);
                let sc_self = SweepingCollider {
                    collider: &quad,
                    position_a: quad.position,
                    position_b: pb_self,
                };
                let sc_other = SweepingCollider {
                    collider: &other,
                    position_a: other.position,
                    position_b: pb_other,
                };
                let res = get_collision(&sc_self, &sc_other);
                proof {
                    assert(sc_other.model_points() == swept_quad_points(other, ts as int));
                    if !fired {
                        // no contact yet: the deltas are zero, so the
                        // tested swept shapes are the pass's shapes
                        assert(pb_self.x == quad.position.x + tdiv(
                            quad.velocity.x * ts,
                            SCALE as int,
                        ));
                        assert(sc_self.model_points() == swept_quad_points(quad, ts as int));
                        if res is Some {
                            assert(pair_overlap(
                                snapshot@,
                                index as int,
                                j as int,
                                ts as int,
                                sweeping,
                            ));
                        }
                        if separated {
                            assert(res is None);
                        }
                    }
                }
                res
            } else {
                let res = get_collision(&quad, &other);
                proof {
                    if res is Some {
                        assert(pair_overlap(snapshot@, index as int, j as int, ts as int, sweeping));
                    }
                    if separated {
                        assert(res is None);
                    }
                }
                res
            };
            if let Some(col) = collision_opt {
                let rel = other.velocity.vsub(quad.velocity);
                let cnvl = normal_velocity(rel, col.normal);
                if cnvl >= 0 {
                    // an approaching contact fired
                    proof {
                        if !fired {
                            assert(pair_overlap(
                                snapshot@,
                                index as int,
                                j as int,
                                ts as int,
                                sweeping,
                            ));
                        }
                    }
                    fired = true;
                    // positional correction always from the direct shapes
                    if let Some(col2) = get_collision(&quad, &other) {
                        let (pcx, pcy) = position_correction(other.dynamic, col2.normal, col2.depth);
                        pdx = pdx - pcx;
                        pdy = pdy - pcy;
                    }
                    let (vcx, vcy) = velocity_correction(col.normal, cnvl);
                    vdx = vdx - vcx;
                    vdy = vdy - vcy;
                }
            }
        }
        j += 1;
    }
    proof {
        assert((n as int) * CORR_LIMIT <= (QUAD_LIMIT as int) * CORR_LIMIT) by (nonlinear_arith)
            requires
                0 <= n <= QUAD_LIMIT,
        ;
    }
    let px = clamp64(quad.position.x + pdx, COORD_LIMIT);
    let py = clamp64(quad.position.y + pdy, COORD_LIMIT);
    let vx = clamp64(quad.velocity.x + vdx, COORD_LIMIT);
    let vy = clamp64(quad.velocity.y + vdy, COORD_LIMIT);
    let out = Quad {
        position: Vec2 { x: px, y: py },
        velocity: Vec2 { x: vx, y: vy },
        ..quad
    };
    (out, fired)
}

/// The physics scene: the body list, its double-buffer twin, and the
/// step configuration.
pub struct App {
    pub quads: Vec<Quad>,
    pub old_quads: Vec<Quad>,
    pub gravity: Vec2,
    pub sweeping_colliders: bool,
}

/// The scene is within the ranges the solver supports.
pub open spec fn app_wf(a: App) -> bool {
    &&& in_box(a.gravity, COORD_LIMIT as int)
    &&& a.quads@.len() <= QUAD_LIMIT
    &&& forall|i: int| 0 <= i < a.quads@.len() ==> quad_wf(#[trigger] a.quads@[i])
}

/// The fields a resolution pass never touches.
pub open spec fn solver_keeps(a: Quad, b: Quad) -> bool {
    &&& a.dynamic == b.dynamic
    &&& a.scale == b.scale
    &&& a.rotation == b.rotation
    &&& a.angular_velocity == b.angular_velocity
    &&& a.rot_cos == b.rot_cos
    &&& a.rot_sin == b.rot_sin
}

/// The scene after the gravity step: every body taken through
/// [`gravity_applied`].
pub open spec fn gravity_pass(qs: Seq<Quad>, g: Vec2, ts: int) -> Seq<Quad> {
    qs.map_values(|q: Quad| gravity_applied(q, g, ts))
}

/// No two distinct bodies of the scene overlap in the shapes a
/// resolution pass tests.
pub open spec fn all_separated(qs: Seq<Quad>, ts: int, sweeping: bool) -> bool {
    forall|i: int, j: int|
        0 <= i < qs.len() && 0 <= j < qs.len() && i != j ==> !#[trigger] pair_overlap(
            qs,
            i,
            j,
            ts,
            sweeping,
        )
}

impl Default for App {
    /// The starting scene: a dynamic unit square at the origin above a
    /// static 5 by 0.5 ground slab at (0, -2), under earth gravity,
    /// with continuous detection off.
    fn default() -> (r: App)
        ensures
            app_wf(r),
            r.quads@.len() == 2,
            r.quads@[0] == (Quad {
                position: Vec2 { x: 0i64, y: 0i64 },
                velocity: Vec2 { x: 0i64, y: 0i64 },
                rotation: 0i64,
                angular_velocity: 0i64,
                rot_cos: SCALE,
                rot_sin: 0i64,
                scale: Vec2 { x: SCALE, y: SCALE },
                dynamic: true,
            }),
            r.quads@[1] == (Quad {
                position: Vec2 { x: 0i64, y: -131072i64 },
                velocity: Vec2 { x: 0i64, y: 0i64 },
                rotation: 0i64,
                angular_velocity: 0i64,
                rot_cos: SCALE,
                rot_sin: 0i64,
                scale: Vec2 { x: 327680i64, y: 32768i64 },
                dynamic: false,
            }),
            r.old_quads@.len() == 0,
            r.gravity == (Vec2 { x: 0i64, y: -642908i64 }),
            !r.sweeping_colliders,
    {
        let mut quads: Vec<Quad> = Vec::new();
        quads.push(
            Quad {
                position: Vec2 { x: 0, y: 0 },
                velocity: Vec2 { x: 0, y: 0 },
                rotation: 0,
                angular_velocity: 0,
                rot_cos: SCALE,
                rot_sin: 0,
                scale: Vec2 { x: SCALE, y: SCALE },
                dynamic: true,
            },
        );
        quads.push(
            Quad {
                position: Vec2 { x: 0, y: -131072 },
                velocity: Vec2 { x: 0, y: 0 },
                rotation: 0,
                angular_velocity: 0,
                rot_cos: SCALE,
                rot_sin: 0,
                scale: Vec2 { x: 327680, y: 32768 },
                dynamic: false,
            },
        );
        App {
            quads,
            old_quads: Vec::new(),
            gravity: Vec2 { x: 0, y: -642908 },
            sweeping_colliders: false,
        }
    }
}

impl App {
    /// Advances the scene by one fixed step of `ts` (fixed-point
    /// seconds): applies gravity to every dynamic body, runs the
    /// iterative all-pairs contact-resolution loop over a frozen
    /// snapshot per pass until no contact fires or the pass budget is
    /// spent, then integrates positions and rotations.
    ///
    /// Static bodies come out exactly as they went in: they receive
    /// no gravity, no correction and no integration.  No body is
    /// created, removed or reordered, and a body's scale, orientation
    /// components and angular velocity are never changed; a dynamic
    /// body's rotation advances by exactly one step of its angular
    /// velocity.
    ///
    /// When no pair of the scene overlaps after the gravity step, the
    /// resolution loop has nothing to do and the step is exactly
    /// semi-implicit Euler: every dynamic body's velocity gains one
    /// step of gravity and its position one step of that new
    /// velocity, each confined to the coordinate range.  Running a
    /// step on a separated, weightless, resting scene is therefore
    /// the identity on positions.
    pub fn fixed_update(&mut self, ts: i64)
        requires
            app_wf(*old(self)),
            0 <= ts <= SCALE,
        ensures
            app_wf(*final(self)),
            final(self).gravity == old(self).gravity,
            final(self).sweeping_colliders == old(self).sweeping_colliders,
            final(self).quads@.len() == old(self).quads@.len(),
            forall|i: int|
                0 <= i < old(self).quads@.len() && !old(self).quads@[i].dynamic ==> final(self).quads@[i] == old(self).quads@[i],
            forall|i: int|
                0 <= i < old(self).quads@.len() ==> {
                    let a = #[trigger] final(self).quads@[i];
                    let b = old(self).quads@[i];
                    a.dynamic == b.dynamic && a.scale == b.scale && a.angular_velocity
                        == b.angular_velocity && a.rot_cos == b.rot_cos && a.rot_sin == b.rot_sin
                },
            forall|i: int|
                0 <= i < old(self).quads@.len() && old(self).quads@[i].dynamic ==> final(self).quads@[i].rotation == clamp_spec(
                    old(self).quads@[i].rotation + tdiv(
                        old(self).quads@[i].angular_velocity * ts,
                        SCALE as int,
                    ),
                    COORD_LIMIT as int,
                ),
            all_separated(
                gravity_pass(old(self).quads@, old(self).gravity, ts as int),
                ts as int,
                old(self).sweeping_colliders,
            ) ==> forall|i: int|
                0 <= i < old(self).quads@.len() && old(self).quads@[i].dynamic ==> {
                    let a = #[trigger] final(self).quads@[i];
                    let g = gravity_pass(old(self).quads@, old(self).gravity, ts as int)[i];
                    &&& a.velocity == g.velocity
                    &&& a.position.x == clamp_spec(
                        g.position.x + tdiv(g.velocity.x * ts, SCALE as int),
                        COORD_LIMIT as int,
                    )
                    &&& a.position.y == clamp_spec(
                        g.position.y + tdiv(g.velocity.y * ts, SCALE as int),
                        COORD_LIMIT as int,
                    )
                },
    {
        let ghost gq = gravity_pass(old(self).quads@, old(self).gravity, ts as int);
        let ghost sep = all_separated(gq, ts as int, old(self).sweeping_colliders);
        let n = self.quads.len();
        // gravity pass
        let mut after_gravity: Vec<Quad> = Vec::new();
        let mut i: usize = 0;
        while i < n
            invariant
                n == self.quads@.len(),
                i <= n,
                app_wf(*self),
                0 <= ts <= SCALE,
                self == old(self),
                after_gravity@.len() == i,
                forall|k: int|
                    0 <= k < i ==> {
                        let a = #[trigger] after_gravity@[k];
                        let b = self.quads@[k];
                        quad_wf(a) && solver_keeps(a, b) && a.position == b.position && (!b.dynamic
                            ==> a == b) && a == gravity_applied(b, self.gravity, ts as int)
                    },
            decreases n - i,
        {
            let q = self.quads[i];
            let g = apply_gravity(&q, self.gravity, ts);
            after_gravity.push(g);
            i += 1;
        }
        self.quads = after_gravity;
        proof {
            assert forall|k: int| 0 <= k < n implies self.quads@[k] == gq[k] by {
                assert(gq[k] == gravity_applied(old(self).quads@[k], old(self).gravity, ts as int));
            }
            assert(self.quads@ =~= gq);
        }
        // resolution loop over a frozen snapshot per pass
        let mut iterations: usize = 0;
        let mut solved = false;
        while !solved && iterations < MAX_PHYSICS_ITERATIONS
            invariant
                self.quads@.len() == n,
                n == old(self).quads@.len(),
                n <= QUAD_LIMIT,
                0 <= ts <= SCALE,
                self.gravity == old(self).gravity,
                self.sweeping_colliders == old(self).sweeping_colliders,
                forall|k: int| 0 <= k < n ==> quad_wf(#[trigger] self.quads@[k]),
                forall|k: int|
                    0 <= k < n ==> solver_keeps(#[trigger] self.quads@[k], old(self).quads@[k]),
                forall|k: int|
                    0 <= k < n && !old(self).quads@[k].dynamic ==> #[trigger] self.quads@[k] == old(self).quads@[k],
                sep == all_separated(gq, ts as int, old(self).sweeping_colliders),
                sep ==> self.quads@ == gq,
            decreases MAX_PHYSICS_ITERATIONS - iterations,
        {
            solved = true;
            core::mem::swap(&mut self.quads, &mut self.old_quads);
            self.quads.clear();
            let mut i2: usize = 0;
            while i2 < n
                invariant
                    self.old_quads@.len() == n,
                    n == old(self).quads@.len(),
                    n <= QUAD_LIMIT,
                    0 <= ts <= SCALE,
                    self.gravity == old(self).gravity,
                    self.sweeping_colliders == old(self).sweeping_colliders,
                    forall|k: int| 0 <= k < n ==> quad_wf(#[trigger] self.old_quads@[k]),
                    forall|k: int|
                        0 <= k < n ==> solver_keeps(
                            #[trigger] self.old_quads@[k],
                            old(self).quads@[k],
                        ),
                    forall|k: int|
                        0 <= k < n && !old(self).quads@[k].dynamic ==> #[trigger] self.old_quads@[k]
                            == old(self).quads@[k],
                    i2 <= n,
                    self.quads@.len() == i2,
                    forall|k: int|
                        0 <= k < i2 ==> {
                            let a = #[trigger] self.quads@[k];
                            let b = self.old_quads@[k];
                            quad_wf(a) && solver_keeps(a, b) && (!b.dynamic ==> a == b)
                        },
                    sep == all_separated(gq, ts as int, old(self).sweeping_colliders),
                    sep ==> self.old_quads@ == gq,
                    sep ==> forall|k: int| 0 <= k < i2 ==> #[trigger] self.quads@[k] == gq[k],
                decreases n - i2,
            {
                proof {
                    if sep {
                        assert forall|jj: int| 0 <= jj < self.old_quads@.len() && jj != i2 implies !pair_overlap(
                            self.old_quads@,
                            i2 as int,
                            jj,
                            ts as int,
                            self.sweeping_colliders,
                        ) by {
                            assert(!pair_overlap(
                                gq,
                                i2 as int,
                                jj,
                                ts as int,
                                old(self).sweeping_colliders,
                            ));
                        }
                    }
                }
                let (q, f) = resolve_body(&self.old_quads, i2, ts, self.sweeping_colliders);
                proof {
                    if sep {
                        assert(q == self.old_quads@[i2 as int]);
                    }
                }
                if f {
                    solved = false;
                }
                self.quads.push(q);
                i2 += 1;
            }
            proof {
                if sep {
                    assert(self.quads@ =~= gq);
                }
            }
            iterations += 1;
        }
        // final integration pass
        let mut integrated: Vec<Quad> = Vec::new();
        let mut i3: usize = 0;
        while i3 < n
            invariant
                self.quads@.len() == n,
                n == old(self).quads@.len(),
                n <= QUAD_LIMIT,
                0 <= ts <= SCALE,
                self.gravity == old(self).gravity,
                self.sweeping_colliders == old(self).sweeping_colliders,
                forall|k: int| 0 <= k < n ==> quad_wf(#[trigger] self.quads@[k]),
                forall|k: int|
                    0 <= k < n ==> solver_keeps(#[trigger] self.quads@[k], old(self).quads@[k]),
                forall|k: int|
                    0 <= k < n && !old(self).quads@[k].dynamic ==> #[trigger] self.quads@[k] == old(self).quads@[k],
                sep == all_separated(gq, ts as int, old(self).sweeping_colliders),
                sep ==> self.quads@ == gq,
                i3 <= n,
                integrated@.len() == i3,
                forall|k: int|
                    0 <= k < i3 ==> {
                        let a = #[trigger] integrated@[k];
                        let b = self.quads@[k];
                        quad_wf(a) && a.dynamic == b.dynamic && a.scale == b.scale
                            && a.angular_velocity == b.angular_velocity && a.rot_cos == b.rot_cos
                            && a.rot_sin == b.rot_sin && a.velocity == b.velocity && (!b.dynamic
                            ==> a == b) && (b.dynamic ==> a.rotation == clamp_spec(
                            b.rotation + tdiv(b.angular_velocity * ts, SCALE as int),
                            COORD_LIMIT as int,
                        ) && a.position.x == clamp_spec(
                            b.position.x + tdiv(b.velocity.x * ts, SCALE as int),
                            COORD_LIMIT as int,
                        ) && a.position.y == clamp_spec(
                            b.position.y + tdiv(b.velocity.y * ts, SCALE as int),
                            COORD_LIMIT as int,
                        ))
                    },
            decreases n - i3,
        {
            let q = self.quads[i3];
            let g = integrate_quad(&q, ts);
            integrated.push(g);
            i3 += 1;
        }
        self.quads = integrated;
    }
}

} // verus!
