//! 2D fixed-point vectors: component arithmetic, dot and cross
//! products, perpendiculars and approximate normalization.

use vstd::prelude::*;

verus! {

use crate::SCALE;
use crate::fx::{tdiv, tdiv128, lemma_tdiv_bound, lemma_tdiv_rem, isqrt};

/// A 2D vector in 16.16 fixed point.
#[derive(Clone, Copy, PartialEq, Eq, Structural, Debug)]
pub struct Vec2 {
    pub x: i64,
    pub y: i64,
}

/// A 2D vector with wide components, used for search directions, whose
/// coordinates are products of point coordinates.
#[derive(Clone, Copy, PartialEq, Eq, Structural, Debug)]
pub struct WideVec2 {
    pub x: i128,
    pub y: i128,
}

/// Both components no larger in magnitude than `b`.
pub open spec fn in_box(v: Vec2, b: int) -> bool {
    -b <= v.x <= b && -b <= v.y <= b
}

/// Both wide components no larger in magnitude than `b`.
pub open spec fn in_box_wide(v: WideVec2, b: int) -> bool {
    -b <= v.x <= b && -b <= v.y <= b
}

/// The 2D cross product (z component of the 3D lift).
pub open spec fn cross(a: Vec2, b: Vec2) -> int {
    a.x * b.y - a.y * b.x
}

/// Mathematical dot product of a point with a direction.
pub open spec fn dot_spec(px: int, py: int, dx: int, dy: int) -> int {
    px * dx + py * dy
}

impl Vec2 {
    pub fn new(x: i64, y: i64) -> (r: Vec2)
        ensures
            r.x == x,
            r.y == y,
    {
        Vec2 { x, y }
    }

    pub fn vadd(self, o: Vec2) -> (r: Vec2)
        requires
            i64::MIN <= self.x + o.x <= i64::MAX,
            i64::MIN <= self.y + o.y <= i64::MAX,
        ensures
            r.x == self.x + o.x,
            r.y == self.y + o.y,
    {
        Vec2 { x: self.x + o.x, y: self.y + o.y }
    }

    pub fn vsub(self, o: Vec2) -> (r: Vec2)
        requires
            i64::MIN <= self.x - o.x <= i64::MAX,
            i64::MIN <= self.y - o.y <= i64::MAX,
        ensures
            r.x == self.x - o.x,
            r.y == self.y - o.y,
    {
        Vec2 { x: self.x - o.x, y: self.y - o.y }
    }

    pub fn vneg(self) -> (r: Vec2)
        requires
            self.x > i64::MIN,
            self.y > i64::MIN,
        ensures
            r.x == -self.x,
            r.y == -self.y,
    {
        Vec2 { x: -self.x, y: -self.y }
    }

    /// Widen to a direction vector.
    pub fn widen(self) -> (r: WideVec2)
        ensures
            r.x == self.x,
            r.y == self.y,
    {
        WideVec2 { x: self.x as i128, y: self.y as i128 }
    }
}

impl WideVec2 {
    pub fn wneg(self) -> (r: WideVec2)
        requires
            self.x > i128::MIN,
            self.y > i128::MIN,
        ensures
            r.x == -self.x,
            r.y == -self.y,
    {
        WideVec2 { x: -self.x, y: -self.y }
    }
}

/// Exact dot product of two narrow vectors.
pub fn dot(a: Vec2, b: Vec2) -> (r: i128)
    requires
        in_box(a, 0x4000000000000000),
        in_box(b, 0x4000000000000000),
    ensures
        r == a.x * b.x + a.y * b.y,
{
    proof {
        assert((a.x as int) * (b.x as int) <= 0x4000000000000000 * 0x4000000000000000
            && (a.x as int) * (b.x as int) >= -(0x4000000000000000 * 0x4000000000000000)
            && (a.y as int) * (b.y as int) <= 0x4000000000000000 * 0x4000000000000000
            && (a.y as int) * (b.y as int) >= -(0x4000000000000000 * 0x4000000000000000))
            by (nonlinear_arith)
            requires
                -0x4000000000000000 <= a.x <= 0x4000000000000000,
                -0x4000000000000000 <= b.x <= 0x4000000000000000,
                -0x4000000000000000 <= a.y <= 0x4000000000000000,
                -0x4000000000000000 <= b.y <= 0x4000000000000000,
        ;
    }
    (a.x as i128) * (b.x as i128) + (a.y as i128) * (b.y as i128)
}

/// Exact dot product of a narrow point with a wide direction.
pub fn dot_wide(p: Vec2, d: WideVec2) -> (r: i128)
    requires
        in_box(p, 0x40000000),
        in_box_wide(d, 0x400000000000000000000000),
    ensures
        r == p.x * d.x + p.y * d.y,
{
    proof {
        assert((p.x as int) * d.x <= 0x40000000 * 0x400000000000000000000000
            && (p.x as int) * d.x >= -(0x40000000 * 0x400000000000000000000000)
            && (p.y as int) * d.y <= 0x40000000 * 0x400000000000000000000000
            && (p.y as int) * d.y >= -(0x40000000 * 0x400000000000000000000000))
            by (nonlinear_arith)
            requires
                -0x40000000 <= p.x <= 0x40000000,
                -0x40000000 <= p.y <= 0x40000000,
                -0x400000000000000000000000 <= d.x <= 0x400000000000000000000000,
                -0x400000000000000000000000 <= d.y <= 0x400000000000000000000000,
        ;
    }
    (p.x as i128) * d.x + (p.y as i128) * d.y
}

/// Exact 2D cross product of two narrow vectors.
pub fn cross_of(a: Vec2, b: Vec2) -> (r: i128)
    requires
        in_box(a, 0x4000000000000000),
        in_box(b, 0x4000000000000000),
    ensures
        r == cross(a, b),
{
    proof {
        assert((a.x as int) * (b.y as int) <= 0x4000000000000000 * 0x4000000000000000
            && (a.x as int) * (b.y as int) >= -(0x4000000000000000 * 0x4000000000000000)
            && (a.y as int) * (b.x as int) <= 0x4000000000000000 * 0x4000000000000000
            && (a.y as int) * (b.x as int) >= -(0x4000000000000000 * 0x4000000000000000))
            by (nonlinear_arith)
            requires
                -0x4000000000000000 <= a.x <= 0x4000000000000000,
                -0x4000000000000000 <= b.x <= 0x4000000000000000,
                -0x4000000000000000 <= a.y <= 0x4000000000000000,
                -0x4000000000000000 <= b.y <= 0x4000000000000000,
        ;
    }
    (a.x as i128) * (b.y as i128) - (a.y as i128) * (b.x as i128)
}

/// The direction `k * perp(v)` with `perp(v) = (-v.y, v.x)`: the triple
/// cross product `(v x w) x v` of the GJK cases, with `k = cross(v, w)`.
pub fn perp_scaled(k: i128, v: Vec2) -> (r: WideVec2)
    requires
        -0x200000000000000 <= k <= 0x200000000000000,
        in_box(v, 0x10000000),
    ensures
        r.x == k * -v.y,
        r.y == k * v.x,
        in_box_wide(r, crate::DIR_LIMIT as int),
{
    proof {
        assert(k * (-(v.y as int)) <= 0x200000000000000 * 0x10000000
            && k * (-(v.y as int)) >= -(0x200000000000000 * 0x10000000)
            && k * (v.x as int) <= 0x200000000000000 * 0x10000000
            && k * (v.x as int) >= -(0x200000000000000 * 0x10000000))
            by (nonlinear_arith)
            requires
                -0x200000000000000 <= k <= 0x200000000000000,
                -0x10000000 <= v.x <= 0x10000000,
                -0x10000000 <= v.y <= 0x10000000,
        ;
    }
    WideVec2 { x: k * (-(v.y as i128)), y: k * (v.x as i128) }
}

/// The cross product of vectors in a `m`-box is at most `2 m^2` in
/// magnitude.
pub proof fn lemma_cross_bound(a: Vec2, b: Vec2, m: int)
    requires
        m >= 0,
        in_box(a, m),
        in_box(b, m),
    ensures
        -2 * m * m <= cross(a, b) <= 2 * m * m,
{
    assert(-2 * m * m <= a.x * b.y - a.y * b.x <= 2 * m * m) by (nonlinear_arith)
        requires
            m >= 0,
            -m <= a.x <= m,
            -m <= a.y <= m,
            -m <= b.x <= m,
            -m <= b.y <= m,
    ;
}

/// A vector whose squared length is within rounding error of `SCALE^2`:
/// a unit vector of the fixed-point representation.
pub open spec fn unit_ish(v: Vec2) -> bool {
    SCALE * SCALE - 5 * SCALE <= v.x * v.x + v.y * v.y <= SCALE * SCALE + 3 * SCALE
}

/// `r` is `v * SCALE / |v|` computed with floor square root `l` of
/// `|v|^2` and truncating division.
pub open spec fn is_normalization(v: Vec2, r: Vec2, l: int) -> bool {
    &&& l >= SCALE
    &&& l * l <= v.x * v.x + v.y * v.y
    &&& v.x * v.x + v.y * v.y < (l + 1) * (l + 1)
    &&& r.x == tdiv(v.x * SCALE, l)
    &&& r.y == tdiv(v.y * SCALE, l)
}

/// A truncated quotient of `a * s` by `l` stays within `[-s, s]` when
/// `|a| <= l`.
proof fn lemma_tdiv_scaled_bound(a: int, l: int, s: int)
    requires
        l > 0,
        s > 0,
        -l <= a <= l,
    ensures
        -s <= tdiv(a * s, l) <= s,
{
    lemma_tdiv_rem(a * s, l);
    let q = tdiv(a * s, l);
    let r = a * s - q * l;
    assert(-s <= q <= s) by (nonlinear_arith)
        requires
            l > 0,
            s > 0,
            -l <= a <= l,
            a * s == q * l + r,
            -l < r < l,
    ;
}

/// Scale `v` to unit length (in fixed point): `v * SCALE / |v|`.
/// The result's squared length is within rounding error of `SCALE^2`.
pub fn normalize_fx(v: Vec2) -> (r: Vec2)
    requires
        in_box(v, 0x40000000),
        v.x * v.x + v.y * v.y >= SCALE * SCALE,
    ensures
        exists|l: int| is_normalization(v, r, l),
        in_box(r, SCALE as int),
        unit_ish(r),
{
    let n2: i128 = dot(v, v);
    proof {
        assert(n2 <= 0x2000000000000000int && n2 >= v.x * v.x >= 0)
            by (nonlinear_arith)
            requires
                n2 == v.x * v.x + v.y * v.y,
                -0x40000000 <= v.x <= 0x40000000,
                -0x40000000 <= v.y <= 0x40000000,
        ;
    }
    let l: u64 = isqrt(n2 as u128);
    proof {
        assert((l as int) * (l as int) <= n2 < (l as int + 1) * (l as int + 1));
        assert(l >= SCALE && -(l as int) <= v.x <= l as int && -(l as int) <= v.y <= l as int)
            by (nonlinear_arith)
            requires
                n2 == v.x * v.x + v.y * v.y,
                n2 >= SCALE * SCALE,
                (l as int) * (l as int) <= n2 < (l as int + 1) * (l as int + 1),
                l >= 0,
                SCALE == 65536,
        ;
        lemma_tdiv_scaled_bound(v.x as int, l as int, SCALE as int);
        lemma_tdiv_scaled_bound(v.y as int, l as int, SCALE as int);
        assert(v.x * (SCALE as int) == (v.x as i128) * (SCALE as i128));
        assert(tdiv((v.x as i128) * (SCALE as i128), l as int) == tdiv(v.x * SCALE, l as int));
    }
    let rx: i64 = tdiv128((v.x as i128) * (SCALE as i128), l as i128);
    let ry: i64 = tdiv128((v.y as i128) * (SCALE as i128), l as i128);
    let r = Vec2 { x: rx, y: ry };
    proof {
        let li = l as int;
        let s = SCALE as int;
        lemma_tdiv_rem(v.x * s, li);
        lemma_tdiv_rem(v.y * s, li);
        let ax = v.x * s - rx * li;
        let ay = v.y * s - ry * li;
        // remainders lie in (-l, l) and match the sign of the dividend
        assert(-li < ax < li && -li < ay < li);
        assert(rx * ax >= 0 && ry * ay >= 0) by (nonlinear_arith)
            requires
                li > 0,
                s > 0,
                v.x * s == rx * li + ax,
                v.y * s == ry * li + ay,
                v.x * s >= 0 ==> 0 <= ax && 0 <= rx,
                v.x * s < 0 ==> ax <= 0 && rx <= 0,
                v.y * s >= 0 ==> 0 <= ay && 0 <= ry,
                v.y * s < 0 ==> ay <= 0 && ry <= 0,
        ;
        assert(v.x * s >= 0 ==> rx >= 0) by {
            if v.x * s >= 0 {
                lemma_tdiv_bound(v.x * s, li);
            }
        }
        assert(v.x * s < 0 ==> rx <= 0) by {
            if v.x * s < 0 {
                lemma_tdiv_bound(v.x * s, li);
            }
        }
        assert(v.y * s >= 0 ==> ry >= 0) by {
            if v.y * s >= 0 {
                lemma_tdiv_bound(v.y * s, li);
            }
        }
        assert(v.y * s < 0 ==> ry <= 0) by {
            if v.y * s < 0 {
                lemma_tdiv_bound(v.y * s, li);
            }
        }
        let u2 = rx * rx + ry * ry;
        assert(ax * ax >= 0 && ay * ay >= 0) by (nonlinear_arith);
        assert((rx * li + ax) * (rx * li + ax) == li * li * (rx * rx) + 2 * li * (rx * ax) + ax * ax)
            by (nonlinear_arith);
        assert((ry * li + ay) * (ry * li + ay) == li * li * (ry * ry) + 2 * li * (ry * ay) + ay * ay)
            by (nonlinear_arith);
        assert((v.x * s) * (v.x * s) == s * s * (v.x * v.x)) by (nonlinear_arith);
        assert((v.y * s) * (v.y * s) == s * s * (v.y * v.y)) by (nonlinear_arith);
        assert((v.x * s) * (v.x * s) == (rx * li + ax) * (rx * li + ax));
        assert((v.y * s) * (v.y * s) == (ry * li + ay) * (ry * li + ay));
        assert(s * s * (v.x * v.x) == li * li * (rx * rx) + 2 * li * (rx * ax) + ax * ax);
        assert(s * s * (v.y * v.y) == li * li * (ry * ry) + 2 * li * (ry * ay) + ay * ay);
        assert(s * s * n2 == s * s * (v.x * v.x) + s * s * (v.y * v.y)
            && li * li * u2 == li * li * (rx * rx) + li * li * (ry * ry)
            && 2 * li * (rx * ax + ry * ay) == 2 * li * (rx * ax) + 2 * li * (ry * ay))
            by (nonlinear_arith)
            requires
                n2 == v.x * v.x + v.y * v.y,
                u2 == rx * rx + ry * ry,
        ;
        assert(s * s * n2 == li * li * u2 + 2 * li * (rx * ax + ry * ay) + ax * ax + ay * ay);
        // upper bound: the remainders only shorten the result
        assert(u2 <= s * s + 2 * s) by (nonlinear_arith)
            requires
                s * s * n2 == li * li * u2 + 2 * li * (rx * ax + ry * ay) + ax * ax + ay * ay,
                rx * ax >= 0,
                ry * ay >= 0,
                ax * ax >= 0,
                ay * ay >= 0,
                n2 < (li + 1) * (li + 1),
                li >= s,
                s > 0,
        ;
        // lower bound: each remainder costs at most one part in SCALE
        assert(rx * ax <= s * li && ry * ay <= s * li && ax * ax <= li * li && ay * ay <= li * li)
            by (nonlinear_arith)
            requires
                -s <= rx <= s,
                -s <= ry <= s,
                -li < ax < li,
                -li < ay < li,
                rx * ax >= 0,
                ry * ay >= 0,
                li > 0,
                s > 0,
        ;
        assert(u2 >= s * s - 4 * s - 2) by (nonlinear_arith)
            requires
                s * s * n2 == li * li * u2 + 2 * li * (rx * ax + ry * ay) + ax * ax + ay * ay,
                rx * ax <= s * li,
                ry * ay <= s * li,
                ax * ax <= li * li,
                ay * ay <= li * li,
                n2 >= li * li,
                li >= s,
                s > 1,
        ;
        assert(is_normalization(v, r, li));
    }
    r
}

} // verus!
