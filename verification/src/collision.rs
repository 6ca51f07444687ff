//! Overlap detection and penetration recovery for convex shapes:
//! the collider capability, the GJK intersection test and the EPA
//! depth solver.

use vstd::prelude::*;

verus! {

use arrayvec::ArrayVec;
use crate::{
    SCALE,
    EXTENT_LIMIT,
    MAX_PHYSICS_ITERATIONS,
    SUPPORT_LIMIT,
    MINK_LIMIT,
    DIR_LIMIT,
    DEPTH_LIMIT,
    EPA_TOLERANCE,
};
use crate::vec2::{
    Vec2,
    WideVec2,
    in_box,
    in_box_wide,
    dot,
    dot_wide,
    cross_of,
    perp_scaled,
    dot_spec,
    lemma_cross_bound,
    normalize_fx,
    unit_ish,
};
use crate::geom::{shapes_overlap, xp, lemma_enclosing_triangle_overlap};
use crate::points::{pts_view, pts_new, pts_len, pts_get, pts_push, pts_insert, pts_remove};
use crate::fx::tdiv128;

/// A convex shape usable in collision queries: it reports a
/// representative interior point and a support function.
///
/// The shape's geometry is modelled by `model_points`, the finite set
/// of points whose convex hull the shape stands for.
pub trait Collider: Sized {
    /// The generating points of the shape's convex hull.
    spec fn model_points(&self) -> Seq<(int, int)>;

    /// The representative interior point that `center` returns.
    spec fn model_center(&self) -> (int, int);

    /// The shape's data is within the coordinate range the engine
    /// supports.
    spec fn wf(&self) -> bool;

    /// A well-formed shape has at least one generating point, all its
    /// points and its center stay within [`SUPPORT_LIMIT`], and no
    /// point lies further than [`EXTENT_LIMIT`] from the center.
    proof fn lemma_wf_points(&self)
        requires
            self.wf(),
        ensures
            self.model_points().len() >= 1,
            forall|i: int|
                0 <= i < self.model_points().len() ==> pt_in_box(
                    #[trigger] self.model_points()[i],
                    SUPPORT_LIMIT as int,
                ),
            forall|i: int|
                0 <= i < self.model_points().len() ==> pt_in_box(
                    (
                        (#[trigger] self.model_points()[i]).0 - self.model_center().0,
                        self.model_points()[i].1 - self.model_center().1,
                    ),
                    EXTENT_LIMIT as int,
                ),
            -(SUPPORT_LIMIT as int) <= self.model_center().0 <= SUPPORT_LIMIT as int,
            -(SUPPORT_LIMIT as int) <= self.model_center().1 <= SUPPORT_LIMIT as int,
    ;

    /// A representative interior point.
    fn center(&self) -> (r: Vec2)
        requires
            self.wf(),
        ensures
            r.x == self.model_center().0,
            r.y == self.model_center().1,
    ;

    /// The support point: a generating point furthest along
    /// `direction`.
    fn furthest_point_in_direction(&self, direction: WideVec2) -> (r: Vec2)
        requires
            self.wf(),
            in_box_wide(direction, DIR_LIMIT as int),
        ensures
            exists|i: int|
                0 <= i < self.model_points().len() && #[trigger] self.model_points()[i] == (
                r.x as int,
                r.y as int,
            ),
            forall|i: int|
                0 <= i < self.model_points().len() ==> dot_spec(
                    (#[trigger] self.model_points()[i]).0,
                    self.model_points()[i].1,
                    direction.x as int,
                    direction.y as int,
                ) <= dot_spec(r.x as int, r.y as int, direction.x as int, direction.y as int),
    ;
}

/// The result of a positive collision query: the direction that
/// separates the first shape from the second, and how deep they
/// overlap along it.
#[derive(Clone, Copy, PartialEq, Eq, Structural, Debug)]
pub struct Collision {
    /// Unit separation direction (in fixed point, length `SCALE` up to
    /// rounding).
    pub normal: Vec2,
    /// Penetration distance, always positive.
    pub depth: i64,
}

/// Both coordinates of a stored point no larger in magnitude than `b`.
pub open spec fn pt_in_box(p: (int, int), b: int) -> bool {
    -b <= p.0 <= b && -b <= p.1 <= b
}

/// `p` is a point of the Minkowski difference hull generators:
/// a difference of a generating point of A and one of B.
pub open spec fn is_mink(pa: Seq<(int, int)>, pb: Seq<(int, int)>, p: (int, int)) -> bool {
    exists|i: int, j: int|
        0 <= i < pa.len() && 0 <= j < pb.len() && p.0 == (#[trigger] pa[i]).0 - (
        #[trigger] pb[j]).0 && p.1 == pa[i].1 - pb[j].1
}

/// Uniform projection bounds on the two generator sets along a
/// direction: every point of the first projects at most `ba`, every
/// point of the second at least `bb`.  With `ba < bb` the direction
/// separates the hulls.
pub open spec fn sep_bounds(
    pa: Seq<(int, int)>,
    pb: Seq<(int, int)>,
    dx: int,
    dy: int,
    ba: int,
    bb: int,
) -> bool {
    &&& forall|i: int|
        0 <= i < pa.len() ==> dot_spec((#[trigger] pa[i]).0, pa[i].1, dx, dy) <= ba
    &&& forall|j: int|
        0 <= j < pb.len() ==> dot_spec((#[trigger] pb[j]).0, pb[j].1, dx, dy) >= bb
}

/// The Minkowski-difference support point of two shapes along `d`:
/// a difference of generating points that projects at least as far
/// along `d` as every other such difference.  Its projection is also
/// the gap between uniform bounds on the two sets, so a negative
/// projection certifies a separating direction.
fn support<A: Collider, B: Collider>(s1: &A, s2: &B, d: WideVec2) -> (r: Vec2)
    requires
        s1.wf(),
        s2.wf(),
        in_box_wide(d, DIR_LIMIT as int),
    ensures
        is_mink(s1.model_points(), s2.model_points(), (r.x as int, r.y as int)),
        in_box(r, MINK_LIMIT as int),
        forall|i: int, j: int|
            0 <= i < s1.model_points().len() && 0 <= j < s2.model_points().len() ==> dot_spec(
                (#[trigger] s1.model_points()[i]).0 - (#[trigger] s2.model_points()[j]).0,
                s1.model_points()[i].1 - s2.model_points()[j].1,
                d.x as int,
                d.y as int,
            ) <= dot_spec(r.x as int, r.y as int, d.x as int, d.y as int),
        exists|ba: int, bb: int|
            #[trigger] sep_bounds(
                s1.model_points(),
                s2.model_points(),
                d.x as int,
                d.y as int,
                ba,
                bb,
            ) && ba - bb == dot_spec(r.x as int, r.y as int, d.x as int, d.y as int),
{
    let p1 = s1.furthest_point_in_direction(d);
    let p2 = s2.furthest_point_in_direction(d.wneg());
    proof {
        s1.lemma_wf_points();
        s2.lemma_wf_points();
        let pa = s1.model_points();
        let pb = s2.model_points();
        let i = choose|i: int|
            0 <= i < pa.len() && #[trigger] pa[i] == (p1.x as int, p1.y as int);
        let j = choose|j: int|
            0 <= j < pb.len() && #[trigger] pb[j] == (p2.x as int, p2.y as int);
        assert(pt_in_box(pa[i], SUPPORT_LIMIT as int));
        assert(pt_in_box(pb[j], SUPPORT_LIMIT as int));
        let dx = d.x as int;
        let dy = d.y as int;
        assert forall|ii: int, jj: int|
            0 <= ii < pa.len() && 0 <= jj < pb.len() implies dot_spec(
            (#[trigger] pa[ii]).0 - (#[trigger] pb[jj]).0,
            pa[ii].1 - pb[jj].1,
            dx,
            dy,
        ) <= dot_spec(p1.x - p2.x, p1.y - p2.y, dx, dy) by {
            // the first shape's support dominates along d
            assert(dot_spec(pa[ii].0, pa[ii].1, dx, dy) <= dot_spec(
                p1.x as int,
                p1.y as int,
                dx,
                dy,
            ));
            // the second shape's support dominates along -d
            assert(dot_spec(pb[jj].0, pb[jj].1, -dx, -dy) <= dot_spec(
                p2.x as int,
                p2.y as int,
                -dx,
                -dy,
            ));
            assert(dot_spec(pa[ii].0 - pb[jj].0, pa[ii].1 - pb[jj].1, dx, dy) == dot_spec(
                pa[ii].0,
                pa[ii].1,
                dx,
                dy,
            ) + dot_spec(pb[jj].0, pb[jj].1, -dx, -dy)) by (nonlinear_arith);
            assert(dot_spec(p1.x - p2.x, p1.y - p2.y, dx, dy) == dot_spec(
                p1.x as int,
                p1.y as int,
                dx,
                dy,
            ) + dot_spec(p2.x as int, p2.y as int, -dx, -dy)) by (nonlinear_arith);
        }
        // the support projections are the uniform bounds
        let ba = dot_spec(p1.x as int, p1.y as int, dx, dy);
        let bb = dot_spec(p2.x as int, p2.y as int, dx, dy);
        assert forall|jj: int| 0 <= jj < pb.len() implies dot_spec(
            (#[trigger] pb[jj]).0,
            pb[jj].1,
            dx,
            dy,
        ) >= bb by {
            assert(dot_spec(pb[jj].0, pb[jj].1, -dx, -dy) <= dot_spec(
                p2.x as int,
                p2.y as int,
                -dx,
                -dy,
            ));
            assert(dot_spec(pb[jj].0, pb[jj].1, -dx, -dy) == -dot_spec(pb[jj].0, pb[jj].1, dx, dy)
                && dot_spec(p2.x as int, p2.y as int, -dx, -dy) == -bb) by (nonlinear_arith)
                requires
                    bb == dot_spec(p2.x as int, p2.y as int, dx, dy),
            ;
        }
        assert(sep_bounds(pa, pb, dx, dy, ba, bb));
        assert(ba - bb == dot_spec(p1.x - p2.x, p1.y - p2.y, dx, dy)) by (nonlinear_arith)
            requires
                ba == dot_spec(p1.x as int, p1.y as int, dx, dy),
                bb == dot_spec(p2.x as int, p2.y as int, dx, dy),
        ;
    }
    p1.vsub(p2)
}

/// A stored point, coordinates widened to `int`.
pub open spec fn as_pt(p: (i64, i64)) -> (int, int) {
    (p.0 as int, p.1 as int)
}

/// A simplex entry: a bounded Minkowski-difference point of the two
/// shapes' hull generators.
pub open spec fn mink_ok(pa: Seq<(int, int)>, pb: Seq<(int, int)>, p: (i64, i64)) -> bool {
    is_mink(pa, pb, as_pt(p)) && pt_in_box(as_pt(p), MINK_LIMIT as int)
}

/// The geometric meaning of a reported collision: some
/// Minkowski-difference point `p` projects furthest along the normal
/// among all of them, and that furthest projection (in fixed point)
/// falls between `depth - 2 * EPA_TOLERANCE` and `depth`.  Moving the
/// first shape by `depth` against the normal therefore leaves the two
/// hulls separated along it.
pub open spec fn separation_certificate(
    pa: Seq<(int, int)>,
    pb: Seq<(int, int)>,
    n: Vec2,
    depth: int,
) -> bool {
    exists|p: (int, int)|
        {
            &&& #[trigger] is_mink(pa, pb, p)
            &&& forall|i: int, j: int|
                0 <= i < pa.len() && 0 <= j < pb.len() ==> dot_spec(
                    (#[trigger] pa[i]).0 - (#[trigger] pb[j]).0,
                    pa[i].1 - pb[j].1,
                    n.x as int,
                    n.y as int,
                ) <= dot_spec(p.0, p.1, n.x as int, n.y as int)
            &&& depth - 2 * EPA_TOLERANCE <= crate::fx::tdiv(
                p.0 * n.x + p.1 * n.y,
                SCALE as int,
            ) <= depth
        }
}

/// The triangle of `p0, p1, p2` contains the origin (boundary
/// included): the origin lies on the inner side of all three edges,
/// read off from the cyclic cross products sharing the sign of the
/// doubled signed area, which is nonzero.
pub open spec fn triangle_encloses_origin(p0: (int, int), p1: (int, int), p2: (int, int)) -> bool {
    let sg = xp(p1, p2) + xp(p2, p0) + xp(p0, p1);
    &&& sg != 0
    &&& sg * xp(p1, p2) >= 0
    &&& sg * xp(p2, p0) >= 0
    &&& sg * xp(p0, p1) >= 0
}

/// How a GJK search ended: a proved separation, a proved enclosure
/// (with the enclosing simplex), or an exhausted iteration budget.
enum GjkOutcome {
    Separated,
    Enclosed(ArrayVec<(i64, i64), 128>),
    BudgetOut,
}

/// The GJK line-case invariant: the search direction is the
/// perpendicular of the current segment, scaled by `k`, and `k` is
/// signed so the origin lies on the direction's side of the segment
/// (`k * cross(p0, p1) < 0` unless the segment is radial).
pub open spec fn line_dir_ok(p0: (i64, i64), p1: (i64, i64), d: WideVec2, k: int) -> bool {
    let vx = p0.0 - p1.0;
    let vy = p0.1 - p1.1;
    let lam = p0.0 * p1.1 - p0.1 * p1.0;
    &&& d.x == k * -vy
    &&& d.y == k * vx
    &&& (lam != 0 ==> k * lam < 0)
}

/// Exact product of two bounded wide values.
fn mul128(a: i128, b: i128) -> (r: i128)
    requires
        -0x1000000000000000 <= a <= 0x1000000000000000,
        -0x1000000000000000 <= b <= 0x1000000000000000,
    ensures
        r == a * b,
{
    proof {
        assert(a * b <= 0x1000000000000000 * 0x1000000000000000 && a * b >= -(0x1000000000000000
            * 0x1000000000000000)) by (nonlinear_arith)
            requires
                -0x1000000000000000 <= a <= 0x1000000000000000,
                -0x1000000000000000 <= b <= 0x1000000000000000,
        ;
    }
    a * b
}

/// The GJK test.  Walks Minkowski-difference support points, keeping
/// a simplex of at most three, until a support point falls short of
/// the origin (the direction then separates the hulls: provably no
/// overlap), the simplex encloses the origin (provable overlap, the
/// returned triangle being the witness), or the iteration budget runs
/// out (no verdict).
fn gjk<A: Collider, B: Collider>(s1: &A, s2: &B) -> (res: GjkOutcome)
    requires
        s1.wf(),
        s2.wf(),
    ensures
        res is Separated ==> !shapes_overlap(s1.model_points(), s2.model_points()),
        res matches GjkOutcome::Enclosed(sx) ==> {
            &&& pts_view(sx).len() == 3
            &&& forall|t: int|
                0 <= t < 3 ==> mink_ok(
                    s1.model_points(),
                    s2.model_points(),
                    #[trigger] pts_view(sx)[t],
                )
            &&& triangle_encloses_origin(
                as_pt(pts_view(sx)[0]),
                as_pt(pts_view(sx)[1]),
                as_pt(pts_view(sx)[2]),
            )
            &&& shapes_overlap(s1.model_points(), s2.model_points())
        },
{
    let ghost pa = s1.model_points();
    let ghost pb = s2.model_points();
    let c1 = s1.center();
    let c2 = s2.center();
    proof {
        s1.lemma_wf_points();
        s2.lemma_wf_points();
    }
    let mut dv = c2.vsub(c1);
    if dv.x == 0 && dv.y == 0 {
        // coincident centers: any direction serves as a start
        dv = Vec2::new(SCALE, 0);
    }
    let mut d = dv.widen();
    let mut simplex = pts_new();
    let a0 = support(s1, s2, d);
    pts_push(&mut simplex, (a0.x, a0.y));
    d = a0.vneg().widen();
    let ghost mut kk: int = 0;
    let mut iterations: usize = 0;
    while iterations < MAX_PHYSICS_ITERATIONS
        invariant
            s1.wf(),
            s2.wf(),
            pa == s1.model_points(),
            pb == s2.model_points(),
            1 <= pts_view(simplex).len() <= 2,
            forall|t: int|
                0 <= t < pts_view(simplex).len() ==> mink_ok(pa, pb, #[trigger] pts_view(simplex)[t]),
            in_box_wide(d, DIR_LIMIT as int),
            pts_view(simplex).len() == 2 ==> line_dir_ok(
                pts_view(simplex)[0],
                pts_view(simplex)[1],
                d,
                kk,
            ),
        decreases MAX_PHYSICS_ITERATIONS - iterations,
    {
        let a = support(s1, s2, d);
        let da = dot_wide(a, d);
        if da < 0 {
            // the whole difference hull is short of the origin along d:
            // the uniform bounds of the support call separate the hulls
            proof {
                let (ba, bb): (int, int) = choose|ba: int, bb: int|
                    #[trigger] sep_bounds(pa, pb, d.x as int, d.y as int, ba, bb) && ba - bb
                        == dot_spec(a.x as int, a.y as int, d.x as int, d.y as int);
                crate::geom::lemma_separating_direction(pa, pb, d.x as int, d.y as int, ba, bb);
            }
            return GjkOutcome::Separated;
        }
        let la = pts_len(&simplex);
        pts_push(&mut simplex, (a.x, a.y));
        if la == 1 {
            // line case: aim the search at the origin's side of the segment
            let p0 = pts_get(&simplex, 0);
            let p1 = pts_get(&simplex, 1);
            let v = Vec2::new(p0.0 - p1.0, p0.1 - p1.1);
            let ao = Vec2::new(-p1.0, -p1.1);
            let k0 = cross_of(v, ao);
            proof {
                lemma_cross_bound(v, ao, MINK_LIMIT as int + MINK_LIMIT as int);
            }
            // origin collinear with the segment: probe perpendicular
            let k = if k0 == 0 {
                1
            } else {
                k0
            };
            d = perp_scaled(k, v);
            proof {
                kk = k as int;
                assert((p0.0 - p1.0) * -p1.1 - (p0.1 - p1.1) * -p1.0 == -(p0.0 * p1.1 - p0.1
                    * p1.0)) by (nonlinear_arith);
                let lam = p0.0 * p1.1 - p0.1 * p1.0;
                assert(lam != 0 ==> kk * lam < 0) by (nonlinear_arith)
                    requires
                        kk == if lam == 0 {
                            1int
                        } else {
                            -lam
                        },
                ;
            }
        } else {
            // triangle case: [p0, p1, p2], newest last
            let p0 = pts_get(&simplex, 0);
            let p1 = pts_get(&simplex, 1);
            let p2 = pts_get(&simplex, 2);
            let abv = Vec2::new(p1.0 - p2.0, p1.1 - p2.1);
            let acv = Vec2::new(p0.0 - p2.0, p0.1 - p2.1);
            let aov = Vec2::new(-p2.0, -p2.1);
            let sigma = cross_of(acv, abv);
            let cab = cross_of(abv, aov);
            let cac = cross_of(acv, aov);
            proof {
                lemma_cross_bound(acv, abv, MINK_LIMIT as int + MINK_LIMIT as int);
                lemma_cross_bound(abv, aov, MINK_LIMIT as int + MINK_LIMIT as int);
                lemma_cross_bound(acv, aov, MINK_LIMIT as int + MINK_LIMIT as int);
            }
            let ghost tp0 = as_pt(p0);
            let ghost tp1 = as_pt(p1);
            let ghost tp2 = as_pt(p2);
            let ghost l0 = xp(tp1, tp2);
            let ghost l1 = xp(tp2, tp0);
            let ghost l2 = xp(tp0, tp1);
            proof {
                // the computed crosses in terms of the three points
                assert((p0.0 - p2.0) * (p1.1 - p2.1) - (p0.1 - p2.1) * (p1.0 - p2.0) == (p1.0
                    * p2.1 - p1.1 * p2.0) + (p2.0 * p0.1 - p2.1 * p0.0) + (p0.0 * p1.1 - p0.1
                    * p1.0)) by (nonlinear_arith);
                assert((p1.0 - p2.0) * -p2.1 - (p1.1 - p2.1) * -p2.0 == -(p1.0 * p2.1 - p1.1
                    * p2.0)) by (nonlinear_arith);
                assert((p0.0 - p2.0) * -p2.1 - (p0.1 - p2.1) * -p2.0 == (p2.0 * p0.1 - p2.1
                    * p0.0)) by (nonlinear_arith);
                assert(sigma == l0 + l1 + l2);
                assert(cab == -l0);
                assert(cac == l1);
            }
            if mul128(sigma, cab) > 0 {
                // origin beyond edge p1-p2: drop p0, search outward
                let _dropped = pts_remove(&mut simplex, 0);
                d = perp_scaled(sigma, abv);
                proof {
                    kk = sigma as int;
                    assert(pts_view(simplex)[0] == p1 && pts_view(simplex)[1] == p2);
                    assert(kk * l0 < 0) by (nonlinear_arith)
                        requires
                            kk * (-l0) > 0,
                    ;
                }
            } else if mul128(sigma, cac) < 0 {
                // origin beyond edge p0-p2: drop p1, search outward
                let _dropped = pts_remove(&mut simplex, 1);
                let nsigma = -sigma;
                d = perp_scaled(nsigma, acv);
                proof {
                    kk = -(sigma as int);
                    assert(pts_view(simplex)[0] == p0 && pts_view(simplex)[1] == p2);
                    let lam = p0.0 * p2.1 - p0.1 * p2.0;
                    assert(lam == -l1);
                    assert(lam != 0 ==> kk * lam < 0) by (nonlinear_arith)
                        requires
                            kk == -(l0 + l1 + l2),
                            (l0 + l1 + l2) * l1 < 0,
                            lam == -l1,
                    ;
                }
            } else if sigma != 0 {
                // the triangle encloses the origin: overlap shown
                proof {
                    let sg = l0 + l1 + l2;
                    // third side from the line-case invariant and da >= 0
                    let vx = tp0.0 - tp1.0;
                    let vy = tp0.1 - tp1.1;
                    let cvp2 = vx * tp2.1 - vy * tp2.0;
                    assert(da == kk * cvp2) by (nonlinear_arith)
                        requires
                            da == tp2.0 * (kk * -vy) + tp2.1 * (kk * vx),
                            cvp2 == vx * tp2.1 - vy * tp2.0,
                    ;
                    assert(l2 != 0 ==> -l2 * cvp2 >= 0) by (nonlinear_arith)
                        requires
                            l2 != 0 ==> kk * l2 < 0,
                            kk * cvp2 >= 0,
                    ;
                    assert(sg * l2 == -l2 * cvp2 + l2 * l2) by (nonlinear_arith)
                        requires
                            sg == l0 + l1 + l2,
                            l0 == tp1.0 * tp2.1 - tp1.1 * tp2.0,
                            l1 == tp2.0 * tp0.1 - tp2.1 * tp0.0,
                            l2 == tp0.0 * tp1.1 - tp0.1 * tp1.0,
                            cvp2 == (tp0.0 - tp1.0) * tp2.1 - (tp0.1 - tp1.1) * tp2.0,
                    ;
                    assert(l2 * l2 >= 0) by (nonlinear_arith);
                    assert(sg * l2 >= 0);
                    assert(sg * l0 >= 0) by (nonlinear_arith)
                        requires
                            sg * (-l0) <= 0,
                    ;
                    assert(sg * l1 >= 0);
                    // the three stored points are Minkowski differences
                    assert(mink_ok(pa, pb, p0) && mink_ok(pa, pb, p1) && mink_ok(pa, pb, p2));
                    let (ia0, ib0): (int, int) = choose|i: int, j: int|
                        0 <= i < pa.len() && 0 <= j < pb.len() && tp0.0 == (#[trigger] pa[i]).0 - (
                        #[trigger] pb[j]).0 && tp0.1 == pa[i].1 - pb[j].1;
                    let (ia1, ib1): (int, int) = choose|i: int, j: int|
                        0 <= i < pa.len() && 0 <= j < pb.len() && tp1.0 == (#[trigger] pa[i]).0 - (
                        #[trigger] pb[j]).0 && tp1.1 == pa[i].1 - pb[j].1;
                    let (ia2, ib2): (int, int) = choose|i: int, j: int|
                        0 <= i < pa.len() && 0 <= j < pb.len() && tp2.0 == (#[trigger] pa[i]).0 - (
                        #[trigger] pb[j]).0 && tp2.1 == pa[i].1 - pb[j].1;
                    lemma_enclosing_triangle_overlap(
                        pa,
                        pb,
                        tp0,
                        tp1,
                        tp2,
                        ia0,
                        ib0,
                        ia1,
                        ib1,
                        ia2,
                        ib2,
                    );
                }
                return GjkOutcome::Enclosed(simplex);
            } else {
                // flat triangle: drop the oldest point and aim anew
                let _dropped = pts_remove(&mut simplex, 0);
                let q0 = pts_get(&simplex, 0);
                let q1 = pts_get(&simplex, 1);
                let v = Vec2::new(q0.0 - q1.0, q0.1 - q1.1);
                let ao2 = Vec2::new(-q1.0, -q1.1);
                let k0 = cross_of(v, ao2);
                proof {
                    lemma_cross_bound(v, ao2, MINK_LIMIT as int + MINK_LIMIT as int);
                }
                // origin collinear with the segment: probe perpendicular
                let k = if k0 == 0 {
                    1
                } else {
                    k0
                };
                d = perp_scaled(k, v);
                proof {
                    kk = k as int;
                    assert((q0.0 - q1.0) * -q1.1 - (q0.1 - q1.1) * -q1.0 == -(q0.0 * q1.1 - q0.1
                        * q1.0)) by (nonlinear_arith);
                    let lam = q0.0 * q1.1 - q0.1 * q1.0;
                    assert(lam != 0 ==> kk * lam < 0) by (nonlinear_arith)
                        requires
                            kk == if lam == 0 {
                                1int
                            } else {
                                -lam
                            },
                    ;
                }
            }
        }
        iterations += 1;
    }
    GjkOutcome::BudgetOut
}

/// The EPA depth solver.  Expands the GJK triangle into a polytope of
/// Minkowski support points until the edge closest to the origin stops
/// moving (within [`EPA_TOLERANCE`]); that edge's outward unit normal
/// and distance are the separation direction and penetration depth.
/// Returns nothing when the iteration budget runs out or every edge of
/// the polytope has degenerated below one fixed-point unit of length.
fn epa<A: Collider, B: Collider>(
    polytope: ArrayVec<(i64, i64), 128>,
    s1: &A,
    s2: &B,
) -> (res: Option<Collision>)
    requires
        s1.wf(),
        s2.wf(),
        pts_view(polytope).len() == 3,
        forall|t: int|
            0 <= t < 3 ==> pt_in_box(as_pt(#[trigger] pts_view(polytope)[t]), MINK_LIMIT as int),
        triangle_encloses_origin(
            as_pt(pts_view(polytope)[0]),
            as_pt(pts_view(polytope)[1]),
            as_pt(pts_view(polytope)[2]),
        ),
    ensures
        res matches Some(c) ==> {
            &&& unit_ish(c.normal)
            &&& in_box(c.normal, SCALE as int)
            &&& EPA_TOLERANCE <= c.depth <= DEPTH_LIMIT + EPA_TOLERANCE
            &&& separation_certificate(
                s1.model_points(),
                s2.model_points(),
                c.normal,
                c.depth as int,
            )
        },
{
    let mut poly = polytope;
    let mut iterations: usize = 0;
    loop
        invariant
            s1.wf(),
            s2.wf(),
            iterations <= MAX_PHYSICS_ITERATIONS + 1,
            3 <= pts_view(poly).len(),
            pts_view(poly).len() <= 3 + iterations,
            forall|t: int|
                0 <= t < pts_view(poly).len() ==> pt_in_box(
                    as_pt(#[trigger] pts_view(poly)[t]),
                    MINK_LIMIT as int,
                ),
        decreases MAX_PHYSICS_ITERATIONS + 1 - iterations,
    {
        if iterations > MAX_PHYSICS_ITERATIONS {
            // expansion did not settle: report no collision
            return None;
        }
        let n = pts_len(&poly);
        let mut best_found = false;
        let mut best_dist: i64 = 0;
        let mut best_normal = Vec2::new(0, 0);
        let mut best_index: usize = 0;
        let mut i: usize = 0;
        while i < n
            invariant
                s1.wf(),
                s2.wf(),
                n == pts_view(poly).len(),
                3 <= n <= 127,
                i <= n,
                forall|t: int|
                    0 <= t < pts_view(poly).len() ==> pt_in_box(
                        as_pt(#[trigger] pts_view(poly)[t]),
                        MINK_LIMIT as int,
                    ),
                best_found ==> {
                    &&& 0 <= best_dist <= DEPTH_LIMIT
                    &&& unit_ish(best_normal)
                    &&& in_box(best_normal, SCALE as int)
                    &&& best_index < n
                },
            decreases n - i,
        {
            let j = if i + 1 == n {
                0
            } else {
                i + 1
            };
            let vi = pts_get(&poly, i);
            let vj = pts_get(&poly, j);
            let e = Vec2::new(vj.0 - vi.0, vj.1 - vi.1);
            let pn = Vec2::new(e.y, -e.x);
            let nn = dot(pn, pn);
            proof {
                assert((SCALE as int) * (SCALE as int) == 0x100000000int) by (nonlinear_arith);
            }
            if nn >= 0x100000000 {
                let u = normalize_fx(pn);
                let vivec = Vec2::new(vi.0, vi.1);
                let dd = dot(u, vivec);
                proof {
                    assert(-(SCALE as int) * (MINK_LIMIT as int) - (SCALE as int) * (
                    MINK_LIMIT as int) <= u.x * vivec.x + u.y * vivec.y <= (SCALE as int) * (
                    MINK_LIMIT as int) + (SCALE as int) * (MINK_LIMIT as int))
                        by (nonlinear_arith)
                        requires
                            -(SCALE as int) <= u.x <= SCALE as int,
                            -(SCALE as int) <= u.y <= SCALE as int,
                            -(MINK_LIMIT as int) <= vivec.x <= MINK_LIMIT as int,
                            -(MINK_LIMIT as int) <= vivec.y <= MINK_LIMIT as int,
                    ;
                    assert((SCALE as int) * (2 * MINK_LIMIT) == (SCALE as int) * (MINK_LIMIT as int)
                        + (SCALE as int) * (MINK_LIMIT as int)) by (nonlinear_arith);
                    crate::fx::lemma_tdiv_quotient_bound(dd as int, SCALE as int, 2 * MINK_LIMIT);
                }
                let mut dist = tdiv128(dd, SCALE as i128);
                let mut un = u;
                if dist < 0 {
                    dist = -dist;
                    un = u.vneg();
                    proof {
                        assert((-u.x) * (-u.x) == u.x * u.x && (-u.y) * (-u.y) == u.y * u.y)
                            by (nonlinear_arith);
                    }
                }
                if !best_found || dist < best_dist {
                    best_found = true;
                    best_dist = dist;
                    best_normal = un;
                    best_index = j;
                }
            }
            i += 1;
        }
        if !best_found {
            // every edge degenerated: treat as no collision
            return None;
        }
        let sp = support(s1, s2, best_normal.widen());
        let sd = dot(best_normal, sp);
        proof {
            assert(-(SCALE as int) * (MINK_LIMIT as int) - (SCALE as int) * (MINK_LIMIT as int)
                <= best_normal.x * sp.x + best_normal.y * sp.y <= (SCALE as int) * (
            MINK_LIMIT as int) + (SCALE as int) * (MINK_LIMIT as int)) by (nonlinear_arith)
                requires
                    -(SCALE as int) <= best_normal.x <= SCALE as int,
                    -(SCALE as int) <= best_normal.y <= SCALE as int,
                    -(MINK_LIMIT as int) <= sp.x <= MINK_LIMIT as int,
                    -(MINK_LIMIT as int) <= sp.y <= MINK_LIMIT as int,
            ;
            assert((SCALE as int) * (2 * MINK_LIMIT) == (SCALE as int) * (MINK_LIMIT as int) + (
            SCALE as int) * (MINK_LIMIT as int)) by (nonlinear_arith);
            crate::fx::lemma_tdiv_quotient_bound(sd as int, SCALE as int, 2 * MINK_LIMIT);
        }
        let s_dist = tdiv128(sd, SCALE as i128);
        let diff = s_dist - best_dist;
        if diff > EPA_TOLERANCE || diff < -EPA_TOLERANCE {
            // the hull extends past this edge: split it with the support point
            pts_insert(&mut poly, best_index, (sp.x, sp.y));
        } else {
            // settled: bias the depth so resolution leaves a gap
            proof {
                let p = (sp.x as int, sp.y as int);
                assert(is_mink(s1.model_points(), s2.model_points(), p));
                assert(p.0 * best_normal.x + p.1 * best_normal.y == sd);
                assert(s_dist == crate::fx::tdiv(p.0 * best_normal.x + p.1 * best_normal.y,
                    SCALE as int));
                assert(separation_certificate(
                    s1.model_points(),
                    s2.model_points(),
                    best_normal,
                    best_dist + EPA_TOLERANCE,
                ));
            }
            return Some(Collision { normal: best_normal, depth: best_dist + EPA_TOLERANCE });
        }
        iterations += 1;
    }
}

/// The three-way answer of a collision query: the hulls are provably
/// disjoint, provably overlapping (with the separation data), or the
/// iteration budget ran out (or the expanded polytope degenerated)
/// before either could be shown — the undecided case the solver
/// treats as no collision.
#[derive(Clone, Copy, PartialEq, Eq, Structural, Debug)]
pub enum CollisionQuery {
    Separated,
    Contact(Collision),
    Inconclusive,
}

/// Tests two convex shapes for overlap, with the verdict spelled out.
///
/// `Separated` is only answered with a proof that the two hulls are
/// disjoint, and `Contact` only with a proof that they share a point;
/// when the GJK or EPA iteration budget is exhausted, or the expanded
/// polytope degenerates, the query is `Inconclusive` and promises
/// nothing.  A `Contact`'s normal is a unit vector up to fixed-point
/// rounding, its depth is positive and biased up by
/// [`EPA_TOLERANCE`], and together they certify a separation: every
/// point of the Minkowski difference projects on the normal within
/// the depth, so moving the first shape by the depth against the
/// normal clears the overlap along it.
pub fn query_collision<A: Collider, B: Collider>(s1: &A, s2: &B) -> (res: CollisionQuery)
    requires
        s1.wf(),
        s2.wf(),
    ensures
        res is Separated ==> !shapes_overlap(s1.model_points(), s2.model_points()),
        res matches CollisionQuery::Contact(c) ==> {
            &&& shapes_overlap(s1.model_points(), s2.model_points())
            &&& unit_ish(c.normal)
            &&& in_box(c.normal, SCALE as int)
            &&& EPA_TOLERANCE <= c.depth <= DEPTH_LIMIT + EPA_TOLERANCE
            &&& separation_certificate(
                s1.model_points(),
                s2.model_points(),
                c.normal,
                c.depth as int,
            )
        },
{
    match gjk(s1, s2) {
        GjkOutcome::Separated => CollisionQuery::Separated,
        GjkOutcome::BudgetOut => CollisionQuery::Inconclusive,
        GjkOutcome::Enclosed(simplex) => match epa(simplex, s1, s2) {
            Some(c) => CollisionQuery::Contact(c),
            None => CollisionQuery::Inconclusive,
        },
    }
}

/// Tests two convex shapes for overlap.
///
/// Returns the separation normal and penetration depth when the
/// shapes' hulls intersect.  A result is only ever produced for
/// shapes that really overlap: any `Collision` returned comes with a
/// proof that the two hulls share a point, so two shapes whose hulls
/// are disjoint always yield `None`.  The reported normal is a unit
/// vector up to fixed-point rounding, the depth is positive and
/// biased up by [`EPA_TOLERANCE`], and together they certify a
/// separation: every point of the Minkowski difference projects on
/// the normal within the depth, so moving the first shape by the
/// depth against the normal clears the overlap along it.
///
/// `None` collapses two cases: a proved separation, and an exhausted
/// iteration budget taken as no collision.  A caller who needs them
/// apart uses [`query_collision`], whose contract covers the `None`
/// side too.
pub fn get_collision<A: Collider, B: Collider>(s1: &A, s2: &B) -> (res: Option<Collision>)
    requires
        s1.wf(),
        s2.wf(),
    ensures
        res matches Some(c) ==> {
            &&& shapes_overlap(s1.model_points(), s2.model_points())
            &&& unit_ish(c.normal)
            &&& in_box(c.normal, SCALE as int)
            &&& EPA_TOLERANCE <= c.depth <= DEPTH_LIMIT + EPA_TOLERANCE
            &&& separation_certificate(
                s1.model_points(),
                s2.model_points(),
                c.normal,
                c.depth as int,
            )
        },
{
    match query_collision(s1, s2) {
        CollisionQuery::Contact(c) => Some(c),
        _ => None,
    }
}

} // verus!
