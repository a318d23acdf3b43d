//! Three-component fixed-point vectors, used both for points and colors.
//!
//! Each executable operation returns exactly the value of its specification
//! twin, stated over the triple of mathematical integers `view3(v)`.  The
//! twins (`vadd_s`, `vdot_s`, `vunit_s`, ...) are what every later contract
//! in the renderer is written against.

use vstd::prelude::*;

verus! {

use crate::fx::SCALE;
use crate::fx::MUL_IN_MAX;
use crate::fx::MUL_PROD_MAX;
use crate::fx::DIV_NUM_MAX;
use crate::fx::SQRT_ARG_MAX;
use crate::fx::iabs;
use crate::fx::fx_mul_s;
use crate::fx::fx_div_s;
use crate::fx::fx_sqrt_s;
use crate::fx::fx_mul;
use crate::fx::fx_div;
use crate::fx::fx_sqrt;
use crate::fx::lemma_fx_mul_mag;
use vstd::arithmetic::div_mod::lemma_div_is_ordered;
use vstd::arithmetic::div_mod::lemma_fundamental_div_mod;
use vstd::arithmetic::div_mod::lemma_div_by_multiple;
use vstd::arithmetic::mul::lemma_mul_inequality;

/// A vector with components on the fixed-point grid.
#[derive(Clone, Copy, Debug, PartialEq, Eq, Structural)]
pub struct Vec3 {
    pub x: i128,
    pub y: i128,
    pub z: i128,
}

/// Colors are vectors whose components are linear channel intensities.
pub type Color = Vec3;

/// Points are vectors measured from the world origin.
pub type Point3 = Vec3;

/// Largest component magnitude the vector operations accept.
pub const VEC_LIM: i128 = 1_000_000_000_000_000_000_000_000_000_000_000;

/// The components of a vector, as mathematical integers.
pub open spec fn view3(v: Vec3) -> (int, int, int) {
    (v.x as int, v.y as int, v.z as int)
}

/// All three components of the triple are at most `m` in magnitude.
pub open spec fn bounded3(a: (int, int, int), m: int) -> bool {
    iabs(a.0) <= m && iabs(a.1) <= m && iabs(a.2) <= m
}

pub open spec fn vadd_s(a: (int, int, int), b: (int, int, int)) -> (int, int, int) {
    (a.0 + b.0, a.1 + b.1, a.2 + b.2)
}

pub open spec fn vsub_s(a: (int, int, int), b: (int, int, int)) -> (int, int, int) {
    (a.0 - b.0, a.1 - b.1, a.2 - b.2)
}

pub open spec fn vneg_s(a: (int, int, int)) -> (int, int, int) {
    (-a.0, -a.1, -a.2)
}

/// Scaling by a fixed-point scalar, component by component.
pub open spec fn vscale_s(a: (int, int, int), t: int) -> (int, int, int) {
    (fx_mul_s(a.0, t), fx_mul_s(a.1, t), fx_mul_s(a.2, t))
}

/// Component-wise product (color attenuation).
pub open spec fn vcmul_s(a: (int, int, int), b: (int, int, int)) -> (int, int, int) {
    (fx_mul_s(a.0, b.0), fx_mul_s(a.1, b.1), fx_mul_s(a.2, b.2))
}

/// Division by a positive fixed-point scalar, component by component.
pub open spec fn vdiv_s(a: (int, int, int), t: int) -> (int, int, int) {
    (fx_div_s(a.0, t), fx_div_s(a.1, t), fx_div_s(a.2, t))
}

/// Fixed-point dot product.
pub open spec fn vdot_s(a: (int, int, int), b: (int, int, int)) -> int {
    fx_mul_s(a.0, b.0) + fx_mul_s(a.1, b.1) + fx_mul_s(a.2, b.2)
}

/// Fixed-point unit vector: each component divided by the floor length.
pub open spec fn vunit_s(a: (int, int, int)) -> (int, int, int) {
    vdiv_s(a, fx_sqrt_s(vdot_s(a, a)))
}

/// A square on the grid is never negative.
pub proof fn lemma_fx_sq_nonneg(a: int)
    ensures
        0 <= fx_mul_s(a, a),
{
    vstd::arithmetic::mul::lemma_mul_nonnegative(iabs(a), iabs(a));
    vstd::arithmetic::div_mod::lemma_div_pos_is_pos(iabs(a) * iabs(a), SCALE as int);
}

/// The squared length of a vector is never negative.
pub proof fn lemma_vdot_self_nonneg(a: (int, int, int))
    ensures
        0 <= vdot_s(a, a),
{
    lemma_fx_sq_nonneg(a.0);
    lemma_fx_sq_nonneg(a.1);
    lemma_fx_sq_nonneg(a.2);
}

/// A magnitude bound for the dot product from bounds on the operands.
pub proof fn lemma_vdot_bound(a: (int, int, int), b: (int, int, int), ma: int, mb: int)
    requires
        bounded3(a, ma),
        bounded3(b, mb),
        0 <= ma,
        0 <= mb,
    ensures
        iabs(vdot_s(a, b)) * (SCALE as int) <= 3 * (ma * mb),
{
    crate::fx::lemma_fx_mul_bound(a.0, b.0, ma, mb);
    crate::fx::lemma_fx_mul_bound(a.1, b.1, ma, mb);
    crate::fx::lemma_fx_mul_bound(a.2, b.2, ma, mb);
}

impl Vec3 {
    /// All components at most `m` in magnitude.
    pub open spec fn bounded(self, m: int) -> bool {
        bounded3(view3(self), m)
    }

    pub fn new(x: i128, y: i128, z: i128) -> (r: Self)
        ensures
            r.x == x && r.y == y && r.z == z,
    {
        Vec3 { x, y, z }
    }

    pub fn zero() -> (r: Self)
        ensures
            r.x == 0 && r.y == 0 && r.z == 0,
    {
        Vec3 { x: 0, y: 0, z: 0 }
    }

    /// The color white: every channel is one.
    pub fn one() -> (r: Self)
        ensures
            r.x == SCALE && r.y == SCALE && r.z == SCALE,
    {
        Vec3 { x: SCALE, y: SCALE, z: SCALE }
    }

    pub fn x(&self) -> (r: i128)
        ensures
            r == self.x,
    {
        self.x
    }

    pub fn y(&self) -> (r: i128)
        ensures
            r == self.y,
    {
        self.y
    }

    pub fn z(&self) -> (r: i128)
        ensures
            r == self.z,
    {
        self.z
    }

    pub fn neg(&self) -> (r: Self)
        requires
            self.bounded(VEC_LIM as int),
        ensures
            view3(r) == vneg_s(view3(*self)),
            r.bounded(VEC_LIM as int),
    {
        Vec3 { x: -self.x, y: -self.y, z: -self.z }
    }

    pub fn add(&self, rhs: &Vec3) -> (r: Self)
        requires
            self.bounded(VEC_LIM as int),
            rhs.bounded(VEC_LIM as int),
        ensures
            view3(r) == vadd_s(view3(*self), view3(*rhs)),
    {
        Vec3 { x: self.x + rhs.x, y: self.y + rhs.y, z: self.z + rhs.z }
    }

    pub fn sub(&self, rhs: &Vec3) -> (r: Self)
        requires
            self.bounded(VEC_LIM as int),
            rhs.bounded(VEC_LIM as int),
        ensures
            view3(r) == vsub_s(view3(*self), view3(*rhs)),
    {
        Vec3 { x: self.x - rhs.x, y: self.y - rhs.y, z: self.z - rhs.z }
    }

    /// Multiplication by a fixed-point scalar.
    pub fn scale(&self, t: i128) -> (r: Self)
        requires
            self.bounded(MUL_IN_MAX as int),
            iabs(t as int) <= MUL_IN_MAX as int,
            iabs(self.x as int) * iabs(t as int) <= MUL_PROD_MAX as int,
            iabs(self.y as int) * iabs(t as int) <= MUL_PROD_MAX as int,
            iabs(self.z as int) * iabs(t as int) <= MUL_PROD_MAX as int,
        ensures
            view3(r) == vscale_s(view3(*self), t as int),
    {
        Vec3 { x: fx_mul(self.x, t), y: fx_mul(self.y, t), z: fx_mul(self.z, t) }
    }

    /// Component-wise product; this is how attenuation filters a color.
    pub fn cmul(&self, rhs: &Vec3) -> (r: Self)
        requires
            self.bounded(MUL_IN_MAX as int),
            rhs.bounded(MUL_IN_MAX as int),
            iabs(self.x as int) * iabs(rhs.x as int) <= MUL_PROD_MAX as int,
            iabs(self.y as int) * iabs(rhs.y as int) <= MUL_PROD_MAX as int,
            iabs(self.z as int) * iabs(rhs.z as int) <= MUL_PROD_MAX as int,
        ensures
            view3(r) == vcmul_s(view3(*self), view3(*rhs)),
    {
        Vec3 { x: fx_mul(self.x, rhs.x), y: fx_mul(self.y, rhs.y), z: fx_mul(self.z, rhs.z) }
    }

    /// Division by a positive fixed-point scalar.
    pub fn div_fx(&self, t: i128) -> (r: Self)
        requires
            self.bounded(DIV_NUM_MAX as int),
            0 < t,
        ensures
            view3(r) == vdiv_s(view3(*self), t as int),
    {
        Vec3 { x: fx_div(self.x, t), y: fx_div(self.y, t), z: fx_div(self.z, t) }
    }

    pub fn dot(&self, rhs: &Vec3) -> (r: i128)
        requires
            self.bounded(MUL_IN_MAX as int),
            rhs.bounded(MUL_IN_MAX as int),
            iabs(self.x as int) * iabs(rhs.x as int) <= MUL_PROD_MAX as int,
            iabs(self.y as int) * iabs(rhs.y as int) <= MUL_PROD_MAX as int,
            iabs(self.z as int) * iabs(rhs.z as int) <= MUL_PROD_MAX as int,
        ensures
            r == vdot_s(view3(*self), view3(*rhs)),
    {
        let px: i128 = fx_mul(self.x, rhs.x);
        let py: i128 = fx_mul(self.y, rhs.y);
        let pz: i128 = fx_mul(self.z, rhs.z);
        proof {
            lemma_fx_mul_mag(self.x as int, rhs.x as int);
            lemma_fx_mul_mag(self.y as int, rhs.y as int);
            lemma_fx_mul_mag(self.z as int, rhs.z as int);
            lemma_div_is_ordered(iabs(self.x as int) * iabs(rhs.x as int), MUL_PROD_MAX as int, SCALE as int);
            lemma_div_is_ordered(iabs(self.y as int) * iabs(rhs.y as int), MUL_PROD_MAX as int, SCALE as int);
            lemma_div_is_ordered(iabs(self.z as int) * iabs(rhs.z as int), MUL_PROD_MAX as int, SCALE as int);
        }
        px + py + pz
    }

    pub fn length_squared(&self) -> (r: i128)
        requires
            self.bounded(MUL_IN_MAX as int),
            iabs(self.x as int) * iabs(self.x as int) <= MUL_PROD_MAX as int,
            iabs(self.y as int) * iabs(self.y as int) <= MUL_PROD_MAX as int,
            iabs(self.z as int) * iabs(self.z as int) <= MUL_PROD_MAX as int,
        ensures
            r == vdot_s(view3(*self), view3(*self)),
            0 <= r,
    {
        proof {
            lemma_vdot_self_nonneg(view3(*self));
        }
        let c: Vec3 = *self;
        c.dot(&c)
    }

    pub fn length(&self) -> (r: i128)
        requires
            self.bounded(MUL_IN_MAX as int),
            iabs(self.x as int) * iabs(self.x as int) <= MUL_PROD_MAX as int,
            iabs(self.y as int) * iabs(self.y as int) <= MUL_PROD_MAX as int,
            iabs(self.z as int) * iabs(self.z as int) <= MUL_PROD_MAX as int,
            vdot_s(view3(*self), view3(*self)) <= SQRT_ARG_MAX as int,
        ensures
            r == fx_sqrt_s(vdot_s(view3(*self), view3(*self))),
            0 <= r,
    {
        let d: i128 = self.length_squared();
        fx_sqrt(d)
    }

    /// True when the squared length underflows the grid: the vector is too
    /// short to carry a direction at the working precision.
    pub fn near_zero(&self) -> (r: bool)
        requires
            self.bounded(MUL_IN_MAX as int),
            iabs(self.x as int) * iabs(self.x as int) <= MUL_PROD_MAX as int,
            iabs(self.y as int) * iabs(self.y as int) <= MUL_PROD_MAX as int,
            iabs(self.z as int) * iabs(self.z as int) <= MUL_PROD_MAX as int,
        ensures
            r == (vdot_s(view3(*self), view3(*self)) == 0),
    {
        let d: i128 = self.length_squared();
        d == 0
    }

    /// The vector scaled to unit length on the grid.  Every component of the
    /// result is at most two in magnitude.
    pub fn unit(&self) -> (r: Self)
        requires
            self.bounded(MUL_IN_MAX as int),
            iabs(self.x as int) * iabs(self.x as int) <= MUL_PROD_MAX as int,
            iabs(self.y as int) * iabs(self.y as int) <= MUL_PROD_MAX as int,
            iabs(self.z as int) * iabs(self.z as int) <= MUL_PROD_MAX as int,
            vdot_s(view3(*self), view3(*self)) <= SQRT_ARG_MAX as int,
            0 < vdot_s(view3(*self), view3(*self)),
        ensures
            view3(r) == vunit_s(view3(*self)),
            r.bounded(2 * SCALE as int),
    {
        let d: i128 = self.length_squared();
        let len: i128 = fx_sqrt(d);
        proof {
            lemma_unit_bounds(view3(*self), d as int);
        }
        self.div_fx(len)
    }
}

/// For a vector of positive squared length `d`, the floor length is at least
/// one hundred grid steps and each normalized component is at most `2 * SCALE`.
proof fn lemma_unit_bounds(a: (int, int, int), d: int)
    requires
        d == vdot_s(a, a),
        0 < d,
        d <= SQRT_ARG_MAX as int,
    ensures
        100 <= fx_sqrt_s(d),
        bounded3(vdiv_s(a, fx_sqrt_s(d)), 2 * SCALE as int),
        bounded3(a, DIV_NUM_MAX as int),
{
    let len = fx_sqrt_s(d);
    let n = d * (SCALE as int);
    assert(len == crate::fx::sqrt_floor(n));
    lemma_sqrt_floor_bounds(n);
    let s = SCALE as int;
    assert(s <= n) by {
        lemma_mul_inequality(1, d, s);
    }
    assert(100 <= len) by {
        if len < 100 {
            assert((len + 1) * (len + 1) <= 100 * 100) by (nonlinear_arith)
                requires
                    0 <= len,
                    len < 100,
            ;
            assert(n < 100 * 100);
            assert(false);
        }
    };
    lemma_unit_component(a.0, a, d, len);
    lemma_unit_component(a.1, a, d, len);
    lemma_unit_component(a.2, a, d, len);
}

/// Bracketing facts about the floor square root of a non-negative number.
proof fn lemma_sqrt_floor_bounds(n: int)
    requires
        0 <= n,
    ensures
        0 <= crate::fx::sqrt_floor(n),
        crate::fx::sqrt_floor(n) * crate::fx::sqrt_floor(n) <= n,
        n < (crate::fx::sqrt_floor(n) + 1) * (crate::fx::sqrt_floor(n) + 1),
{
    let r = sqrt_witness(n, 0);
    assert(0 <= r && r * r <= n && n < (r + 1) * (r + 1));
    crate::fx::lemma_sqrt_floor_unique(n, r);
}

/// A witness for the floor square root, found by counting up.
proof fn sqrt_witness(n: int, lo: int) -> (r: int)
    requires
        0 <= lo,
        lo * lo <= n,
    ensures
        lo <= r,
        r * r <= n,
        n < (r + 1) * (r + 1),
    decreases n - lo * lo,
{
    if (lo + 1) * (lo + 1) <= n {
        assert(lo * lo < (lo + 1) * (lo + 1)) by (nonlinear_arith)
            requires
                0 <= lo,
        ;
        sqrt_witness(n, lo + 1)
    } else {
        lo
    }
}

/// One normalized component is at most `2 * SCALE` in magnitude.
proof fn lemma_unit_component(c: int, a: (int, int, int), d: int, len: int)
    requires
        d == vdot_s(a, a),
        0 < d,
        d <= SQRT_ARG_MAX as int,
        len == fx_sqrt_s(d),
        100 <= len,
        len * len <= d * (SCALE as int),
        d * (SCALE as int) < (len + 1) * (len + 1),
        c == a.0 || c == a.1 || c == a.2,
    ensures
        iabs(fx_div_s(c, len)) <= 2 * SCALE as int,
        iabs(c) <= DIV_NUM_MAX as int,
{
    let s = SCALE as int;
    // Each square in the dot sum is bounded by the whole sum.
    lemma_fx_sq_nonneg(a.0);
    lemma_fx_sq_nonneg(a.1);
    lemma_fx_sq_nonneg(a.2);
    assert(fx_mul_s(c, c) <= d);
    // Undo the truncation: c^2 <= s * d + s - 1.
    lemma_fundamental_div_mod(iabs(c) * iabs(c), s);
    assert(iabs(c) * iabs(c) == s * ((iabs(c) * iabs(c)) / s) + (iabs(c) * iabs(c)) % s);
    assert((iabs(c) * iabs(c)) / s <= d);
    lemma_mul_inequality((iabs(c) * iabs(c)) / s, d, s);
    assert(iabs(c) * iabs(c) <= d * s + s - 1) by {
        assert(s * ((iabs(c) * iabs(c)) / s) == ((iabs(c) * iabs(c)) / s) * s) by (nonlinear_arith);
    };
    // Hence |c| <= len + 100.
    assert(iabs(c) <= len + 100) by {
        if iabs(c) > len + 100 {
            assert((len + 101) * (len + 101) <= iabs(c) * iabs(c)) by (nonlinear_arith)
                requires
                    0 <= len + 101,
                    len + 101 <= iabs(c),
            ;
            assert((len + 1) * (len + 1) + 200 * len + 10200 <= (len + 101) * (len + 101))
                by (nonlinear_arith);
            assert(d * s < (len + 1) * (len + 1));
            assert(false);
        }
    };
    // len is small, since its square is at most d * s.
    assert(len <= 100_000_000_000_000_000_000) by {
        if len > 100_000_000_000_000_000_000 {
            assert(100_000_000_000_000_000_000 * 100_000_000_000_000_000_000 < len * len)
                by (nonlinear_arith)
                requires
                    100_000_000_000_000_000_000 < len,
            ;
            assert(d * s <= (SQRT_ARG_MAX as int) * s) by {
                lemma_mul_inequality(d, SQRT_ARG_MAX as int, s);
            };
            assert(false);
        }
    };
    assert(iabs(c) <= DIV_NUM_MAX as int);
    // And the normalized component is at most 2 * SCALE.
    let q = (iabs(c) * s) / len;
    assert(iabs(fx_div_s(c, len)) == q) by {
        vstd::arithmetic::mul::lemma_mul_nonnegative(iabs(c), s);
        vstd::arithmetic::div_mod::lemma_div_pos_is_pos(iabs(c) * s, len);
    };
    lemma_mul_inequality(iabs(c), len + 100, s);
    lemma_div_is_ordered(iabs(c) * s, (len + 100) * s, len);
    assert((len + 100) * s <= (2 * s) * len) by (nonlinear_arith)
        requires
            100 <= len,
            0 < s,
    ;
    lemma_div_is_ordered((len + 100) * s, (2 * s) * len, len);
    lemma_div_by_multiple(2 * s, len);
    assert(((2 * s) * len) / len == 2 * s);
}

} // verus!
