//! Convex-hull membership over integer points, stated with scaled
//! (unnormalized) barycentric weights so no rational numbers are
//! needed: a point `q` is in the hull of `ps` at scale `t > 0` when
//! nonnegative integer weights summing to `t` combine `ps` into `q`.
//! Two hulls intersect when one scaled point lies in both.

use vstd::prelude::*;

verus! {

/// Sum of a weight sequence.
pub open spec fn wsum(ws: Seq<int>) -> int
    decreases ws.len(),
{
    if ws.len() == 0 {
        0
    } else {
        wsum(ws.drop_last()) + ws.last()
    }
}

/// Weighted sum of the x coordinates of `ps`.
pub open spec fn wpx(ws: Seq<int>, ps: Seq<(int, int)>) -> int
    decreases ws.len(),
{
    if ws.len() == 0 {
        0
    } else {
        wpx(ws.drop_last(), ps.drop_last()) + ws.last() * ps.last().0
    }
}

/// Weighted sum of the y coordinates of `ps`.
pub open spec fn wpy(ws: Seq<int>, ps: Seq<(int, int)>) -> int
    decreases ws.len(),
{
    if ws.len() == 0 {
        0
    } else {
        wpy(ws.drop_last(), ps.drop_last()) + ws.last() * ps.last().1
    }
}

/// Every weight is nonnegative.
pub open spec fn nonneg(ws: Seq<int>) -> bool {
    forall|i: int| 0 <= i < ws.len() ==> ws[i] >= 0
}

/// `q` scaled by `t` is a nonnegative integer combination of `ps`
/// whose weights sum to `t`: `q / t` lies in the convex hull of `ps`.
pub open spec fn in_hull_scaled(ps: Seq<(int, int)>, t: int, qx: int, qy: int) -> bool {
    exists|ws: Seq<int>|
        ws.len() == ps.len() && nonneg(ws) && wsum(ws) == t && wpx(ws, ps) == qx && wpy(ws, ps)
            == qy
}

/// The convex hulls of the two point sets share a point (with rational
/// coordinates `q / t`).
pub open spec fn shapes_overlap(pa: Seq<(int, int)>, pb: Seq<(int, int)>) -> bool {
    exists|t: int, qx: int, qy: int|
        t > 0 && #[trigger] in_hull_scaled(pa, t, qx, qy) && in_hull_scaled(pb, t, qx, qy)
}

/// All weight zero.
spec fn zeros(n: nat) -> Seq<int> {
    Seq::new(n, |i: int| 0)
}

/// Weight `w` at position `i`, zero elsewhere.
spec fn bump(n: nat, i: int, w: int) -> Seq<int> {
    Seq::new(n, |j: int| if j == i { w } else { 0 })
}

/// Elementwise sum of two weight sequences.
spec fn seq_add(a: Seq<int>, b: Seq<int>) -> Seq<int> {
    Seq::new(a.len(), |i: int| a[i] + b[i])
}

proof fn lemma_zeros(n: nat, ps: Seq<(int, int)>)
    requires
        ps.len() == n,
    ensures
        wsum(zeros(n)) == 0,
        wpx(zeros(n), ps) == 0,
        wpy(zeros(n), ps) == 0,
    decreases n,
{
    if n > 0 {
        lemma_zeros((n - 1) as nat, ps.drop_last());
        assert(zeros(n).drop_last() =~= zeros((n - 1) as nat));
        assert(zeros(n).last() == 0);
        assert(wpx(zeros(n), ps) == wpx(zeros(n).drop_last(), ps.drop_last()) + zeros(n).last()
            * ps.last().0);
        assert(zeros(n).last() * ps.last().0 == 0) by (nonlinear_arith)
            requires
                zeros(n).last() == 0,
        ;
        assert(zeros(n).last() * ps.last().1 == 0) by (nonlinear_arith)
            requires
                zeros(n).last() == 0,
        ;
    }
}

proof fn lemma_bump(n: nat, i: int, w: int, ps: Seq<(int, int)>)
    requires
        ps.len() == n,
        0 <= i < n,
    ensures
        wsum(bump(n, i, w)) == w,
        wpx(bump(n, i, w), ps) == w * ps[i].0,
        wpy(bump(n, i, w), ps) == w * ps[i].1,
    decreases n,
{
    if i == n - 1 {
        lemma_zeros((n - 1) as nat, ps.drop_last());
        assert(bump(n, i, w).drop_last() =~= zeros((n - 1) as nat));
    } else {
        lemma_bump((n - 1) as nat, i, w, ps.drop_last());
        assert(bump(n, i, w).drop_last() =~= bump((n - 1) as nat, i, w));
    }
}

proof fn lemma_add(a: Seq<int>, b: Seq<int>, ps: Seq<(int, int)>)
    requires
        a.len() == b.len(),
        ps.len() == a.len(),
    ensures
        wsum(seq_add(a, b)) == wsum(a) + wsum(b),
        wpx(seq_add(a, b), ps) == wpx(a, ps) + wpx(b, ps),
        wpy(seq_add(a, b), ps) == wpy(a, ps) + wpy(b, ps),
    decreases a.len(),
{
    if a.len() > 0 {
        lemma_add(a.drop_last(), b.drop_last(), ps.drop_last());
        assert(seq_add(a, b).drop_last() =~= seq_add(a.drop_last(), b.drop_last()));
        assert((a.last() + b.last()) * ps.last().0 == a.last() * ps.last().0 + b.last()
            * ps.last().0) by (nonlinear_arith);
        assert((a.last() + b.last()) * ps.last().1 == a.last() * ps.last().1 + b.last()
            * ps.last().1) by (nonlinear_arith);
    }
}

/// Three weighted points of a hull, with weights `m0, m1, m2`, witness
/// hull membership of their weighted sum.
proof fn lemma_three_point_hull(
    ps: Seq<(int, int)>,
    i0: int,
    i1: int,
    i2: int,
    m0: int,
    m1: int,
    m2: int,
)
    requires
        0 <= i0 < ps.len(),
        0 <= i1 < ps.len(),
        0 <= i2 < ps.len(),
        m0 >= 0,
        m1 >= 0,
        m2 >= 0,
    ensures
        in_hull_scaled(
            ps,
            m0 + m1 + m2,
            m0 * ps[i0].0 + m1 * ps[i1].0 + m2 * ps[i2].0,
            m0 * ps[i0].1 + m1 * ps[i1].1 + m2 * ps[i2].1,
        ),
{
    let n = ps.len();
    let b0 = bump(n, i0, m0);
    let b1 = bump(n, i1, m1);
    let b2 = bump(n, i2, m2);
    let w01 = seq_add(b0, b1);
    let ws = seq_add(w01, b2);
    lemma_bump(n, i0, m0, ps);
    lemma_bump(n, i1, m1, ps);
    lemma_bump(n, i2, m2, ps);
    lemma_add(b0, b1, ps);
    lemma_add(w01, b2, ps);
    assert(nonneg(ws));
    assert(ws.len() == ps.len());
}

/// Weighted sum of the projections of `ps` on the direction
/// `(dx, dy)`.
spec fn wdot(ws: Seq<int>, ps: Seq<(int, int)>, dx: int, dy: int) -> int
    decreases ws.len(),
{
    if ws.len() == 0 {
        0
    } else {
        wdot(ws.drop_last(), ps.drop_last(), dx, dy) + ws.last() * (ps.last().0 * dx + ps.last().1
            * dy)
    }
}

/// Projections distribute over weighted sums: the weighted projection
/// is the projection of the weighted point.
proof fn lemma_wdot_linear(ws: Seq<int>, ps: Seq<(int, int)>, dx: int, dy: int)
    requires
        ws.len() == ps.len(),
    ensures
        wdot(ws, ps, dx, dy) == wpx(ws, ps) * dx + wpy(ws, ps) * dy,
    decreases ws.len(),
{
    if ws.len() > 0 {
        lemma_wdot_linear(ws.drop_last(), ps.drop_last(), dx, dy);
        let w = ws.last();
        let p = ps.last();
        assert(w * (p.0 * dx + p.1 * dy) == (w * p.0) * dx + (w * p.1) * dy) by (nonlinear_arith);
        assert((wpx(ws.drop_last(), ps.drop_last()) + w * p.0) * dx == wpx(
            ws.drop_last(),
            ps.drop_last(),
        ) * dx + (w * p.0) * dx) by (nonlinear_arith);
        assert((wpy(ws.drop_last(), ps.drop_last()) + w * p.1) * dy == wpy(
            ws.drop_last(),
            ps.drop_last(),
        ) * dy + (w * p.1) * dy) by (nonlinear_arith);
    }
}

/// With nonnegative weights, a uniform upper bound on every
/// projection bounds the weighted projection by the weight sum times
/// the bound.
proof fn lemma_wdot_upper(ws: Seq<int>, ps: Seq<(int, int)>, dx: int, dy: int, hi: int)
    requires
        ws.len() == ps.len(),
        nonneg(ws),
        forall|i: int| 0 <= i < ps.len() ==> (#[trigger] ps[i]).0 * dx + ps[i].1 * dy <= hi,
    ensures
        wdot(ws, ps, dx, dy) <= wsum(ws) * hi,
    decreases ws.len(),
{
    if ws.len() == 0 {
        assert(wsum(ws) * hi == 0) by (nonlinear_arith)
            requires
                wsum(ws) == 0,
        ;
    } else {
        assert(nonneg(ws.drop_last()));
        assert(forall|i: int|
            0 <= i < ps.drop_last().len() ==> (#[trigger] ps.drop_last()[i]).0 * dx
                + ps.drop_last()[i].1 * dy <= hi) by {
            assert(forall|i: int| 0 <= i < ps.drop_last().len() ==> ps.drop_last()[i] == ps[i]);
        }
        lemma_wdot_upper(ws.drop_last(), ps.drop_last(), dx, dy, hi);
        let w = ws.last();
        let p = ps.last();
        assert(ws[ws.len() - 1] >= 0);
        assert(w * (p.0 * dx + p.1 * dy) <= w * hi) by (nonlinear_arith)
            requires
                w >= 0,
                p.0 * dx + p.1 * dy <= hi,
        ;
        assert((wsum(ws.drop_last()) + w) * hi == wsum(ws.drop_last()) * hi + w * hi)
            by (nonlinear_arith);
    }
}

/// The mirror bound: a uniform lower bound on every projection bounds
/// the weighted projection from below.
proof fn lemma_wdot_lower(ws: Seq<int>, ps: Seq<(int, int)>, dx: int, dy: int, lo: int)
    requires
        ws.len() == ps.len(),
        nonneg(ws),
        forall|i: int| 0 <= i < ps.len() ==> (#[trigger] ps[i]).0 * dx + ps[i].1 * dy >= lo,
    ensures
        wdot(ws, ps, dx, dy) >= wsum(ws) * lo,
    decreases ws.len(),
{
    if ws.len() == 0 {
        assert(wsum(ws) * lo == 0) by (nonlinear_arith)
            requires
                wsum(ws) == 0,
        ;
    } else {
        assert(nonneg(ws.drop_last()));
        assert(forall|i: int|
            0 <= i < ps.drop_last().len() ==> (#[trigger] ps.drop_last()[i]).0 * dx
                + ps.drop_last()[i].1 * dy >= lo) by {
            assert(forall|i: int| 0 <= i < ps.drop_last().len() ==> ps.drop_last()[i] == ps[i]);
        }
        lemma_wdot_lower(ws.drop_last(), ps.drop_last(), dx, dy, lo);
        let w = ws.last();
        let p = ps.last();
        assert(ws[ws.len() - 1] >= 0);
        assert(w * (p.0 * dx + p.1 * dy) >= w * lo) by (nonlinear_arith)
            requires
                w >= 0,
                p.0 * dx + p.1 * dy >= lo,
        ;
        assert((wsum(ws.drop_last()) + w) * lo == wsum(ws.drop_last()) * lo + w * lo)
            by (nonlinear_arith);
    }
}

/// A direction along which every point of one set projects strictly
/// below every point of the other separates the two hulls: they
/// cannot overlap.
pub proof fn lemma_separating_direction(
    pa: Seq<(int, int)>,
    pb: Seq<(int, int)>,
    dx: int,
    dy: int,
    ba: int,
    bb: int,
)
    requires
        ba < bb,
        forall|i: int| 0 <= i < pa.len() ==> (#[trigger] pa[i]).0 * dx + pa[i].1 * dy <= ba,
        forall|j: int| 0 <= j < pb.len() ==> (#[trigger] pb[j]).0 * dx + pb[j].1 * dy >= bb,
    ensures
        !shapes_overlap(pa, pb),
{
    if shapes_overlap(pa, pb) {
        let (t, qx, qy) = choose|t: int, qx: int, qy: int|
            t > 0 && #[trigger] in_hull_scaled(pa, t, qx, qy) && in_hull_scaled(pb, t, qx, qy);
        let wa = choose|ws: Seq<int>|
            ws.len() == pa.len() && nonneg(ws) && wsum(ws) == t && wpx(ws, pa) == qx && wpy(ws, pa)
                == qy;
        let wb = choose|ws: Seq<int>|
            ws.len() == pb.len() && nonneg(ws) && wsum(ws) == t && wpx(ws, pb) == qx && wpy(ws, pb)
                == qy;
        lemma_wdot_linear(wa, pa, dx, dy);
        lemma_wdot_linear(wb, pb, dx, dy);
        // both weighted projections are the common point's projection
        assert(wdot(wa, pa, dx, dy) == qx * dx + qy * dy);
        assert(wdot(wb, pb, dx, dy) == qx * dx + qy * dy);
        lemma_wdot_upper(wa, pa, dx, dy, ba);
        lemma_wdot_lower(wb, pb, dx, dy, bb);
        assert(wdot(wa, pa, dx, dy) <= t * ba);
        assert(wdot(wb, pb, dx, dy) >= t * bb);
        assert(t * ba < t * bb) by (nonlinear_arith)
            requires
                t > 0,
                ba < bb,
        ;
        assert(false);
    }
}

/// The 2D cross product of two points taken as vectors from the origin.
pub open spec fn xp(a: (int, int), b: (int, int)) -> int {
    a.0 * b.1 - a.1 * b.0
}

/// The universal barycentric identity: for any three points, weighting
/// each by the cross product of the other two (in cyclic order) sums
/// to the zero vector.
proof fn lemma_cross_identity(p0: (int, int), p1: (int, int), p2: (int, int))
    ensures
        xp(p1, p2) * p0.0 + xp(p2, p0) * p1.0 + xp(p0, p1) * p2.0 == 0,
        xp(p1, p2) * p0.1 + xp(p2, p0) * p1.1 + xp(p0, p1) * p2.1 == 0,
{
    assert((p1.0 * p2.1 - p1.1 * p2.0) * p0.0 + (p2.0 * p0.1 - p2.1 * p0.0) * p1.0 + (p0.0 * p1.1
        - p0.1 * p1.0) * p2.0 == 0) by (nonlinear_arith);
    assert((p1.0 * p2.1 - p1.1 * p2.0) * p0.1 + (p2.0 * p0.1 - p2.1 * p0.0) * p1.1 + (p0.0 * p1.1
        - p0.1 * p1.0) * p2.1 == 0) by (nonlinear_arith);
}

/// A triangle of Minkowski-difference points that encloses the origin
/// witnesses an intersection of the two hulls.
///
/// `p0, p1, p2` are differences of a point of `pa` and a point of
/// `pb`; the sign conditions say the origin lies inside (or on the
/// boundary of) their triangle, whose doubled signed area
/// `xp(p1,p2) + xp(p2,p0) + xp(p0,p1)` is nonzero.
pub proof fn lemma_enclosing_triangle_overlap(
    pa: Seq<(int, int)>,
    pb: Seq<(int, int)>,
    p0: (int, int),
    p1: (int, int),
    p2: (int, int),
    ia0: int,
    ib0: int,
    ia1: int,
    ib1: int,
    ia2: int,
    ib2: int,
)
    requires
        0 <= ia0 < pa.len() && 0 <= ib0 < pb.len(),
        0 <= ia1 < pa.len() && 0 <= ib1 < pb.len(),
        0 <= ia2 < pa.len() && 0 <= ib2 < pb.len(),
        p0.0 == pa[ia0].0 - pb[ib0].0 && p0.1 == pa[ia0].1 - pb[ib0].1,
        p1.0 == pa[ia1].0 - pb[ib1].0 && p1.1 == pa[ia1].1 - pb[ib1].1,
        p2.0 == pa[ia2].0 - pb[ib2].0 && p2.1 == pa[ia2].1 - pb[ib2].1,
        xp(p1, p2) + xp(p2, p0) + xp(p0, p1) != 0,
        (xp(p1, p2) + xp(p2, p0) + xp(p0, p1)) * xp(p1, p2) >= 0,
        (xp(p1, p2) + xp(p2, p0) + xp(p0, p1)) * xp(p2, p0) >= 0,
        (xp(p1, p2) + xp(p2, p0) + xp(p0, p1)) * xp(p0, p1) >= 0,
    ensures
        shapes_overlap(pa, pb),
{
    let l0 = xp(p1, p2);
    let l1 = xp(p2, p0);
    let l2 = xp(p0, p1);
    let sg = l0 + l1 + l2;
    lemma_cross_identity(p0, p1, p2);
    let m0 = if sg > 0 { l0 } else { -l0 };
    let m1 = if sg > 0 { l1 } else { -l1 };
    let m2 = if sg > 0 { l2 } else { -l2 };
    assert(m0 >= 0 && m1 >= 0 && m2 >= 0) by (nonlinear_arith)
        requires
            sg == l0 + l1 + l2,
            sg != 0,
            sg * l0 >= 0,
            sg * l1 >= 0,
            sg * l2 >= 0,
            m0 == if sg > 0 { l0 } else { -l0 },
            m1 == if sg > 0 { l1 } else { -l1 },
            m2 == if sg > 0 { l2 } else { -l2 },
    ;
    let t = m0 + m1 + m2;
    assert(t > 0);
    // the weighted points sum to zero, so the A side and B side agree
    assert(m0 * p0.0 + m1 * p1.0 + m2 * p2.0 == 0 && m0 * p0.1 + m1 * p1.1 + m2 * p2.1 == 0) by {
        if sg > 0 {
        } else {
            assert(-l0 * p0.0 + -l1 * p1.0 + -l2 * p2.0 == -(l0 * p0.0 + l1 * p1.0 + l2 * p2.0))
                by (nonlinear_arith);
            assert(-l0 * p0.1 + -l1 * p1.1 + -l2 * p2.1 == -(l0 * p0.1 + l1 * p1.1 + l2 * p2.1))
                by (nonlinear_arith);
        }
    }
    let qx = m0 * pa[ia0].0 + m1 * pa[ia1].0 + m2 * pa[ia2].0;
    let qy = m0 * pa[ia0].1 + m1 * pa[ia1].1 + m2 * pa[ia2].1;
    lemma_three_point_hull(pa, ia0, ia1, ia2, m0, m1, m2);
    lemma_three_point_hull(pb, ib0, ib1, ib2, m0, m1, m2);
    // q is the same on both sides because the weighted differences cancel
    assert(m0 * (pa[ia0].0 - pb[ib0].0) + m1 * (pa[ia1].0 - pb[ib1].0) + m2 * (pa[ia2].0
        - pb[ib2].0) == m0 * pa[ia0].0 + m1 * pa[ia1].0 + m2 * pa[ia2].0 - (m0 * pb[ib0].0 + m1
        * pb[ib1].0 + m2 * pb[ib2].0)) by (nonlinear_arith);
    assert(m0 * (pa[ia0].1 - pb[ib0].1) + m1 * (pa[ia1].1 - pb[ib1].1) + m2 * (pa[ia2].1
        - pb[ib2].1) == m0 * pa[ia0].1 + m1 * pa[ia1].1 + m2 * pa[ia2].1 - (m0 * pb[ib0].1 + m1
        * pb[ib1].1 + m2 * pb[ib2].1)) by (nonlinear_arith);
    assert(in_hull_scaled(pb, t, qx, qy));
    assert(t > 0 && in_hull_scaled(pa, t, qx, qy) && in_hull_scaled(pb, t, qx, qy));
}

} // verus!
