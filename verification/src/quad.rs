//! The oriented-rectangle body: position, velocity, rotation and
//! scale in fixed point, plus the collider implementation that GJK
//! and EPA query.

use vstd::prelude::*;

verus! {

use crate::{SCALE, COORD_LIMIT, SUPPORT_LIMIT, DIR_LIMIT};
use crate::fx::{tdiv, tdiv64, tdiv128, lemma_tdiv_quotient_bound};
use crate::vec2::{Vec2, WideVec2, in_box, in_box_wide, dot_wide, dot_spec};
use crate::collision::{Collider, pt_in_box};

/// A rectangular rigid body.
///
/// `rotation` is the orientation in fixed-point radians; since only
/// floating point can evaluate trigonometry, the caller supplies the
/// orientation's cosine and sine (`rot_cos`, `rot_sin`, in fixed
/// point) alongside it, and refreshes them when `rotation` changes.
/// `scale` holds the full side lengths; the half-extents are derived.
/// A body with `dynamic` false is immovable: it never receives
/// gravity, integration or contact correction, but other bodies still
/// collide with it.
#[derive(Clone, Copy, PartialEq, Eq, Structural, Debug)]
pub struct Quad {
    pub position: Vec2,
    pub velocity: Vec2,
    pub rotation: i64,
    pub angular_velocity: i64,
    pub rot_cos: i64,
    pub rot_sin: i64,
    pub scale: Vec2,
    pub dynamic: bool,
}

/// A corner offset `(px, py)` rotated clockwise by the orientation
/// whose cosine and sine (fixed point) are `c` and `s`.
pub open spec fn rot_pt(px: int, py: int, c: int, s: int) -> (int, int) {
    (tdiv(px * c + py * s, SCALE as int), tdiv(py * c - px * s, SCALE as int))
}

/// The world position of the rectangle corner at local offset
/// `(px, py)`.
pub open spec fn corner_spec(q: Quad, px: int, py: int) -> (int, int) {
    let r = rot_pt(px, py, q.rot_cos as int, q.rot_sin as int);
    (q.position.x + r.0, q.position.y + r.1)
}

/// The rectangle's half extents.
pub open spec fn half_x(q: Quad) -> int {
    tdiv(q.scale.x as int, 2)
}

pub open spec fn half_y(q: Quad) -> int {
    tdiv(q.scale.y as int, 2)
}

/// The four corners, in the fixed enumeration order bottom-left,
/// top-left, bottom-right, top-right (of the unrotated rectangle).
pub open spec fn quad_points(q: Quad) -> Seq<(int, int)> {
    seq![
        corner_spec(q, -half_x(q), -half_y(q)),
        corner_spec(q, -half_x(q), half_y(q)),
        corner_spec(q, half_x(q), -half_y(q)),
        corner_spec(q, half_x(q), half_y(q)),
    ]
}

/// All body fields within the coordinate range the engine supports,
/// and the orientation components within one fixed-point unit.
pub open spec fn quad_wf(q: Quad) -> bool {
    &&& in_box(q.position, COORD_LIMIT as int)
    &&& in_box(q.velocity, COORD_LIMIT as int)
    &&& in_box(q.scale, COORD_LIMIT as int)
    &&& -(COORD_LIMIT as int) <= q.rotation <= COORD_LIMIT as int
    &&& -(COORD_LIMIT as int) <= q.angular_velocity <= COORD_LIMIT as int
    &&& -(SCALE as int) <= q.rot_cos <= SCALE as int
    &&& -(SCALE as int) <= q.rot_sin <= SCALE as int
}

/// A rotated corner offset stays within half the support range.
proof fn lemma_rot_pt_bound(px: int, py: int, c: int, s: int)
    requires
        -0x800000 <= px <= 0x800000,
        -0x800000 <= py <= 0x800000,
        -(SCALE as int) <= c <= SCALE as int,
        -(SCALE as int) <= s <= SCALE as int,
    ensures
        -0x1000000 <= rot_pt(px, py, c, s).0 <= 0x1000000,
        -0x1000000 <= rot_pt(px, py, c, s).1 <= 0x1000000,
{
    assert(-(SCALE as int) * 0x1000000 <= px * c + py * s <= (SCALE as int) * 0x1000000
        && -(SCALE as int) * 0x1000000 <= py * c - px * s <= (SCALE as int) * 0x1000000)
        by (nonlinear_arith)
        requires
            -0x800000 <= px <= 0x800000,
            -0x800000 <= py <= 0x800000,
            -(SCALE as int) <= c <= SCALE as int,
            -(SCALE as int) <= s <= SCALE as int,
    ;
    lemma_tdiv_quotient_bound(px * c + py * s, SCALE as int, 0x1000000);
    lemma_tdiv_quotient_bound(py * c - px * s, SCALE as int, 0x1000000);
}

impl Quad {
    /// The world position of the corner at local offset `(px, py)`.
    fn corner_at(&self, px: i64, py: i64) -> (r: Vec2)
        requires
            quad_wf(*self),
            -0x800000 <= px <= 0x800000,
            -0x800000 <= py <= 0x800000,
        ensures
            (r.x as int, r.y as int) == corner_spec(*self, px as int, py as int),
            in_box(r, 0x2000000),
    {
        proof {
            lemma_rot_pt_bound(px as int, py as int, self.rot_cos as int, self.rot_sin as int);
            assert(-0x800000 * (SCALE as int) <= px * self.rot_cos <= 0x800000 * (SCALE as int)
                && -0x800000 * (SCALE as int) <= py * self.rot_sin <= 0x800000 * (SCALE as int)
                && -0x800000 * (SCALE as int) <= py * self.rot_cos <= 0x800000 * (SCALE as int)
                && -0x800000 * (SCALE as int) <= px * self.rot_sin <= 0x800000 * (SCALE as int))
                by (nonlinear_arith)
                requires
                    -0x800000 <= px <= 0x800000,
                    -0x800000 <= py <= 0x800000,
                    -(SCALE as int) <= self.rot_cos <= SCALE as int,
                    -(SCALE as int) <= self.rot_sin <= SCALE as int,
            ;
        }
        let rx = tdiv128(
            (px as i128) * (self.rot_cos as i128) + (py as i128) * (self.rot_sin as i128),
            SCALE as i128,
        );
        let ry = tdiv128(
            (py as i128) * (self.rot_cos as i128) - (px as i128) * (self.rot_sin as i128),
            SCALE as i128,
        );
        Vec2::new(self.position.x + rx, self.position.y + ry)
    }

    /// The corner of this rectangle furthest along `direction`:
    /// exactly the first corner, in the fixed enumeration order
    /// bottom-left, top-left, bottom-right, top-right, to attain the
    /// maximum projection.  Ties go to the earlier corner, so the
    /// choice is deterministic.
    pub fn support_corner(&self, direction: WideVec2) -> (r: Vec2)
        requires
            quad_wf(*self),
            in_box_wide(direction, DIR_LIMIT as int),
        ensures
            exists|i: int|
                {
                    &&& 0 <= i < quad_points(*self).len()
                    &&& #[trigger] quad_points(*self)[i] == (r.x as int, r.y as int)
                    &&& forall|j: int|
                        0 <= j < quad_points(*self).len() ==> dot_spec(
                            (#[trigger] quad_points(*self)[j]).0,
                            quad_points(*self)[j].1,
                            direction.x as int,
                            direction.y as int,
                        ) <= dot_spec(r.x as int, r.y as int, direction.x as int, direction.y as int)
                    &&& forall|j: int|
                        0 <= j < i ==> dot_spec(
                            (#[trigger] quad_points(*self)[j]).0,
                            quad_points(*self)[j].1,
                            direction.x as int,
                            direction.y as int,
                        ) < dot_spec(r.x as int, r.y as int, direction.x as int, direction.y as int)
                },
            in_box(r, 0x2000000),
    {
        let hx = tdiv64(self.scale.x, 2);
        let hy = tdiv64(self.scale.y, 2);
        proof {
            lemma_tdiv_quotient_bound(self.scale.x as int, 2, 0x800000);
            lemma_tdiv_quotient_bound(self.scale.y as int, 2, 0x800000);
        }
        let c0 = self.corner_at(-hx, -hy);
        let c1 = self.corner_at(-hx, hy);
        let c2 = self.corner_at(hx, -hy);
        let c3 = self.corner_at(hx, hy);
        let d0 = dot_wide(c0, direction);
        let d1 = dot_wide(c1, direction);
        let d2 = dot_wide(c2, direction);
        let d3 = dot_wide(c3, direction);
        let ghost pts = quad_points(*self);
        proof {
            assert(pts[0] == (c0.x as int, c0.y as int));
            assert(pts[1] == (c1.x as int, c1.y as int));
            assert(pts[2] == (c2.x as int, c2.y as int));
            assert(pts[3] == (c3.x as int, c3.y as int));
        }
        let mut best = c0;
        let mut best_dot = d0;
        let ghost mut bi: int = 0;
        if d1 > best_dot {
            best = c1;
            best_dot = d1;
            proof {
                bi = 1;
            }
        }
        if d2 > best_dot {
            best = c2;
            best_dot = d2;
            proof {
                bi = 2;
            }
        }
        if d3 > best_dot {
            best = c3;
            best_dot = d3;
            proof {
                bi = 3;
            }
        }
        proof {
            let ddx = direction.x as int;
            let ddy = direction.y as int;
            assert(0 <= bi < pts.len() && pts[bi] == (best.x as int, best.y as int));
            assert forall|j: int| 0 <= j < pts.len() implies dot_spec(
                (#[trigger] pts[j]).0,
                pts[j].1,
                ddx,
                ddy,
            ) <= dot_spec(best.x as int, best.y as int, ddx, ddy) by {
                assert(j == 0 || j == 1 || j == 2 || j == 3);
            }
            assert forall|j: int| 0 <= j < bi implies dot_spec(
                (#[trigger] pts[j]).0,
                pts[j].1,
                ddx,
                ddy,
            ) < dot_spec(best.x as int, best.y as int, ddx, ddy) by {
                assert(j == 0 || j == 1 || j == 2);
            }
        }
        best
    }
}

impl Collider for Quad {
    open spec fn model_points(&self) -> Seq<(int, int)> {
        quad_points(*self)
    }

    open spec fn model_center(&self) -> (int, int) {
        (self.position.x as int, self.position.y as int)
    }

    open spec fn wf(&self) -> bool {
        quad_wf(*self)
    }

    proof fn lemma_wf_points(&self) {
        lemma_tdiv_quotient_bound(self.scale.x as int, 2, 0x800000);
        lemma_tdiv_quotient_bound(self.scale.y as int, 2, 0x800000);
        let hx = half_x(*self);
        let hy = half_y(*self);
        lemma_rot_pt_bound(-hx, -hy, self.rot_cos as int, self.rot_sin as int);
        lemma_rot_pt_bound(-hx, hy, self.rot_cos as int, self.rot_sin as int);
        lemma_rot_pt_bound(hx, -hy, self.rot_cos as int, self.rot_sin as int);
        lemma_rot_pt_bound(hx, hy, self.rot_cos as int, self.rot_sin as int);
        assert forall|i: int| 0 <= i < self.model_points().len() implies pt_in_box(
            #[trigger] self.model_points()[i],
            SUPPORT_LIMIT as int,
        ) && pt_in_box(
            (
                self.model_points()[i].0 - self.model_center().0,
                self.model_points()[i].1 - self.model_center().1,
            ),
            crate::EXTENT_LIMIT as int,
        ) by {
            assert(self.model_points()[0] == corner_spec(*self, -hx, -hy));
            assert(self.model_points()[1] == corner_spec(*self, -hx, hy));
            assert(self.model_points()[2] == corner_spec(*self, hx, -hy));
            assert(self.model_points()[3] == corner_spec(*self, hx, hy));
        }
    }

    fn center(&self) -> (r: Vec2) {
        self.position
    }

    /// The corner furthest along `direction`; ties keep the corner
    /// met first in the fixed enumeration order (see
    /// [`Quad::support_corner`]).
    fn furthest_point_in_direction(&self, direction: WideVec2) -> (r: Vec2) {
        let r = self.support_corner(direction);
        proof {
            let i = choose|i: int|
                {
                    &&& 0 <= i < quad_points(*self).len()
                    &&& #[trigger] quad_points(*self)[i] == (r.x as int, r.y as int)
                    &&& forall|j: int|
                        0 <= j < quad_points(*self).len() ==> dot_spec(
                            (#[trigger] quad_points(*self)[j]).0,
                            quad_points(*self)[j].1,
                            direction.x as int,
                            direction.y as int,
                        ) <= dot_spec(
                            r.x as int,
                            r.y as int,
                            direction.x as int,
                            direction.y as int,
                        )
                    &&& forall|j: int|
                        0 <= j < i ==> dot_spec(
                            (#[trigger] quad_points(*self)[j]).0,
                            quad_points(*self)[j].1,
                            direction.x as int,
                            direction.y as int,
                        ) < dot_spec(
                            r.x as int,
                            r.y as int,
                            direction.x as int,
                            direction.y as int,
                        )
                };
            assert(self.model_points()[i] == (r.x as int, r.y as int));
        }
        r
    }
}

/// A well-formed rectangle is compact: every corner lies within
/// [`COORD_LIMIT`] of its center.
pub proof fn lemma_quad_extent(q: Quad)
    requires
        quad_wf(q),
    ensures
        forall|i: int|
            0 <= i < quad_points(q).len() ==> pt_in_box(
                (
                    (#[trigger] quad_points(q)[i]).0 - q.position.x,
                    quad_points(q)[i].1 - q.position.y,
                ),
                COORD_LIMIT as int,
            ),
{
    lemma_tdiv_quotient_bound(q.scale.x as int, 2, 0x800000);
    lemma_tdiv_quotient_bound(q.scale.y as int, 2, 0x800000);
    let hx = half_x(q);
    let hy = half_y(q);
    lemma_rot_pt_bound(-hx, -hy, q.rot_cos as int, q.rot_sin as int);
    lemma_rot_pt_bound(-hx, hy, q.rot_cos as int, q.rot_sin as int);
    lemma_rot_pt_bound(hx, -hy, q.rot_cos as int, q.rot_sin as int);
    lemma_rot_pt_bound(hx, hy, q.rot_cos as int, q.rot_sin as int);
    assert forall|i: int| 0 <= i < quad_points(q).len() implies pt_in_box(
        ((#[trigger] quad_points(q)[i]).0 - q.position.x, quad_points(q)[i].1 - q.position.y),
        COORD_LIMIT as int,
    ) by {
        assert(quad_points(q)[0] == corner_spec(q, -hx, -hy));
        assert(quad_points(q)[1] == corner_spec(q, -hx, hy));
        assert(quad_points(q)[2] == corner_spec(q, hx, -hy));
        assert(quad_points(q)[3] == corner_spec(q, hx, hy));
    }
}

impl Default for Quad {
    /// A dynamic unit square at the origin, at rest and unrotated.
    fn default() -> (r: Quad)
        ensures
            r.position == (Vec2 { x: 0, y: 0 }),
            r.velocity == (Vec2 { x: 0, y: 0 }),
            r.rotation == 0,
            r.angular_velocity == 0,
            r.rot_cos == SCALE,
            r.rot_sin == 0,
            r.scale == (Vec2 { x: SCALE, y: SCALE }),
            r.dynamic,
            quad_wf(r),
    {
        Quad {
            position: Vec2 { x: 0, y: 0 },
            velocity: Vec2 { x: 0, y: 0 },
            rotation: 0,
            angular_velocity: 0,
            rot_cos: SCALE,
            rot_sin: 0,
            scale: Vec2 { x: SCALE, y: SCALE },
            dynamic: true,
        }
    }
}

} // verus!
