//! Continuous (swept) collision support: a view that decorates a
//! collider with its start- and end-of-step positions, and behaves as
//! the convex hull of the shape swept between them.  Rotation is
//! frozen during the sweep; only the translation is covered.

use vstd::prelude::*;

verus! {

use crate::{COORD_LIMIT, SUPPORT_LIMIT, EXTENT_LIMIT, DIR_LIMIT};
use crate::fx::{tdiv, tdiv64, lemma_tdiv_rem, lemma_tdiv_quotient_bound};
use crate::vec2::{Vec2, WideVec2, in_box, in_box_wide, dot_wide, dot_spec};
use crate::collision::{Collider, pt_in_box};

/// A collider swept from `position_a` to `position_b` over one
/// timestep.  A non-owning view, built per query and never stored.
pub struct SweepingCollider<'a, C: Collider> {
    pub collider: &'a C,
    pub position_a: Vec2,
    pub position_b: Vec2,
}

/// The hull generators of the swept shape: the wrapped shape's points,
/// taken relative to its center, placed at both swept positions.
pub open spec fn swept_points(
    base: Seq<(int, int)>,
    c: (int, int),
    pax: int,
    pay: int,
    pbx: int,
    pby: int,
) -> Seq<(int, int)> {
    let n = base.len() as int;
    Seq::new(
        (2 * n) as nat,
        |i: int|
            if i < n {
                (base[i].0 - c.0 + pax, base[i].1 - c.1 + pay)
            } else {
                (base[i - n].0 - c.0 + pbx, base[i - n].1 - c.1 + pby)
            },
    )
}

/// The swept support rule: `(bx, by)` is a support point of the
/// wrapped shape along the direction, and `r` places its offset from
/// the wrapped center at whichever swept position projects further —
/// the end position `pb` on ties.
pub open spec fn swept_support_pick(
    base: Seq<(int, int)>,
    c: (int, int),
    pa: Vec2,
    pb: Vec2,
    dx: int,
    dy: int,
    bx: int,
    by: int,
    r: Vec2,
) -> bool {
    &&& exists|i: int| 0 <= i < base.len() && #[trigger] base[i] == (bx, by)
    &&& forall|i: int|
        0 <= i < base.len() ==> dot_spec((#[trigger] base[i]).0, base[i].1, dx, dy) <= dot_spec(
            bx,
            by,
            dx,
            dy,
        )
    &&& {
        let ax = bx - c.0 + pa.x;
        let ay = by - c.1 + pa.y;
        let ex = bx - c.0 + pb.x;
        let ey = by - c.1 + pb.y;
        if dot_spec(ax, ay, dx, dy) > dot_spec(ex, ey, dx, dy) {
            (r.x as int, r.y as int) == (ax, ay)
        } else {
            (r.x as int, r.y as int) == (ex, ey)
        }
    }
}

impl<'a, C: Collider> SweepingCollider<'a, C> {
    /// The swept support point: the wrapped shape's support offset,
    /// evaluated at both swept positions, keeping whichever reaches
    /// further along `direction` — the end position on ties, so the
    /// choice is deterministic given the wrapped support.
    pub fn swept_support(&self, direction: WideVec2) -> (r: Vec2)
        requires
            self.wf(),
            in_box_wide(direction, DIR_LIMIT as int),
        ensures
            exists|i: int|
                0 <= i < self.model_points().len() && #[trigger] self.model_points()[i] == (
                r.x as int,
                r.y as int,
            ),
            forall|i: int|
                0 <= i < self.model_points().len() ==> dot_spec(
                    (#[trigger] self.model_points()[i]).0,
                    self.model_points()[i].1,
                    direction.x as int,
                    direction.y as int,
                ) <= dot_spec(r.x as int, r.y as int, direction.x as int, direction.y as int),
            exists|bx: int, by: int|
                #[trigger] swept_support_pick(
                    self.collider.model_points(),
                    self.collider.model_center(),
                    self.position_a,
                    self.position_b,
                    direction.x as int,
                    direction.y as int,
                    bx,
                    by,
                    r,
                ),
    {
        let base = self.collider.furthest_point_in_direction(direction);
        let c = self.collider.center();
        proof {
            self.collider.lemma_wf_points();
            let i0 = choose|i: int|
                0 <= i < self.collider.model_points().len()
                    && #[trigger] self.collider.model_points()[i] == (base.x as int, base.y as int);
            assert(pt_in_box(
                (
                    self.collider.model_points()[i0].0 - self.collider.model_center().0,
                    self.collider.model_points()[i0].1 - self.collider.model_center().1,
                ),
                COORD_LIMIT as int,
            ));
        }
        let off = base.vsub(c);
        let p_a = off.vadd(self.position_a);
        let p_b = off.vadd(self.position_b);
        let da = dot_wide(p_a, direction);
        let db = dot_wide(p_b, direction);
        let r = if da > db {
            p_a
        } else {
            p_b
        };
        proof {
            let bpts = self.collider.model_points();
            let cc = self.collider.model_center();
            let n = bpts.len() as int;
            let i0 = choose|i: int|
                0 <= i < bpts.len() && #[trigger] bpts[i] == (base.x as int, base.y as int);
            if da > db {
                assert(self.model_points()[i0] == (r.x as int, r.y as int));
            } else {
                assert(self.model_points()[n + i0] == (r.x as int, r.y as int));
            }
            let ddx = direction.x as int;
            let ddy = direction.y as int;
            assert forall|j: int| 0 <= j < self.model_points().len() implies dot_spec(
                (#[trigger] self.model_points()[j]).0,
                self.model_points()[j].1,
                ddx,
                ddy,
            ) <= dot_spec(r.x as int, r.y as int, ddx, ddy) by {
                let sx = if j < n {
                    self.position_a.x as int
                } else {
                    self.position_b.x as int
                };
                let sy = if j < n {
                    self.position_a.y as int
                } else {
                    self.position_b.y as int
                };
                let bj = if j < n {
                    bpts[j]
                } else {
                    bpts[j - n]
                };
                assert(self.model_points()[j] == (bj.0 - cc.0 + sx, bj.1 - cc.1 + sy));
                assert(dot_spec(bj.0 - cc.0 + sx, bj.1 - cc.1 + sy, ddx, ddy) == dot_spec(
                    bj.0,
                    bj.1,
                    ddx,
                    ddy,
                ) + dot_spec(sx - cc.0, sy - cc.1, ddx, ddy)) by (nonlinear_arith);
                assert(dot_spec(bj.0, bj.1, ddx, ddy) <= dot_spec(
                    base.x as int,
                    base.y as int,
                    ddx,
                    ddy,
                ));
                assert(dot_spec(base.x as int, base.y as int, ddx, ddy) + dot_spec(
                    sx - cc.0,
                    sy - cc.1,
                    ddx,
                    ddy,
                ) == dot_spec(base.x - cc.0 + sx, base.y - cc.1 + sy, ddx, ddy))
                    by (nonlinear_arith);
                if j < n {
                    assert(dot_spec(base.x - cc.0 + sx, base.y - cc.1 + sy, ddx, ddy) == da);
                } else {
                    assert(dot_spec(base.x - cc.0 + sx, base.y - cc.1 + sy, ddx, ddy) == db);
                }
            }
            // the tie rule, witnessed by the wrapped support point
            let bx = base.x as int;
            let by = base.y as int;
            assert(dot_spec(bx - cc.0 + self.position_a.x, by - cc.1 + self.position_a.y, ddx, ddy)
                == da && dot_spec(
                bx - cc.0 + self.position_b.x,
                by - cc.1 + self.position_b.y,
                ddx,
                ddy,
            ) == db);
            assert(swept_support_pick(
                bpts,
                cc,
                self.position_a,
                self.position_b,
                ddx,
                ddy,
                bx,
                by,
                r,
            ));
        }
        r
    }
}

impl<'a, C: Collider> Collider for SweepingCollider<'a, C> {
    open spec fn model_points(&self) -> Seq<(int, int)> {
        swept_points(
            self.collider.model_points(),
            self.collider.model_center(),
            self.position_a.x as int,
            self.position_a.y as int,
            self.position_b.x as int,
            self.position_b.y as int,
        )
    }

    /// The midpoint of the sweep.
    open spec fn model_center(&self) -> (int, int) {
        (
            self.position_a.x + tdiv(self.position_b.x - self.position_a.x, 2),
            self.position_a.y + tdiv(self.position_b.y - self.position_a.y, 2),
        )
    }

    /// The wrapped shape is well formed and compact (its points within
    /// [`COORD_LIMIT`] of its center), and the sweep starts inside the
    /// coordinate range and moves at most [`COORD_LIMIT`] in one step.
    open spec fn wf(&self) -> bool {
        &&& self.collider.wf()
        &&& in_box(self.position_a, COORD_LIMIT as int)
        &&& -(COORD_LIMIT as int) <= self.position_b.x - self.position_a.x <= COORD_LIMIT as int
        &&& -(COORD_LIMIT as int) <= self.position_b.y - self.position_a.y <= COORD_LIMIT as int
        &&& forall|i: int|
            0 <= i < self.collider.model_points().len() ==> pt_in_box(
                (
                    (#[trigger] self.collider.model_points()[i]).0
                        - self.collider.model_center().0,
                    self.collider.model_points()[i].1 - self.collider.model_center().1,
                ),
                COORD_LIMIT as int,
            )
    }

    proof fn lemma_wf_points(&self) {
        self.collider.lemma_wf_points();
        let base = self.collider.model_points();
        let c = self.collider.model_center();
        let n = base.len() as int;
        let dx = self.position_b.x - self.position_a.x;
        let dy = self.position_b.y - self.position_a.y;
        lemma_tdiv_quotient_bound(dx, 2, COORD_LIMIT as int);
        lemma_tdiv_quotient_bound(dy, 2, COORD_LIMIT as int);
        lemma_tdiv_rem(dx, 2);
        lemma_tdiv_rem(dy, 2);
        assert forall|i: int| 0 <= i < self.model_points().len() implies pt_in_box(
            #[trigger] self.model_points()[i],
            SUPPORT_LIMIT as int,
        ) && pt_in_box(
            (
                self.model_points()[i].0 - self.model_center().0,
                self.model_points()[i].1 - self.model_center().1,
            ),
            EXTENT_LIMIT as int,
        ) by {
            if i < n {
                assert(pt_in_box((base[i].0 - c.0, base[i].1 - c.1), COORD_LIMIT as int));
            } else {
                assert(pt_in_box((base[i - n].0 - c.0, base[i - n].1 - c.1), COORD_LIMIT as int));
            }
        }
    }

    fn center(&self) -> (r: Vec2) {
        let dx = self.position_b.x - self.position_a.x;
        let dy = self.position_b.y - self.position_a.y;
        Vec2::new(self.position_a.x + tdiv64(dx, 2), self.position_a.y + tdiv64(dy, 2))
    }

    /// The swept support point (see [`SweepingCollider::swept_support`],
    /// which also states the tie rule: the end position wins ties).
    fn furthest_point_in_direction(&self, direction: WideVec2) -> (r: Vec2) {
        self.swept_support(direction)
    }
}

} // verus!
