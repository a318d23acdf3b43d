//! Sampling helpers and the reflection/refraction formulas.

use vstd::prelude::*;

verus! {

use crate::fx::SCALE;
use crate::fx::iabs;
use crate::fx::fx_sqrt_s;
use crate::fx::fx_sqrt;
use crate::fx::lemma_fx_mul_bound;
use crate::sampler::Sampler;
use crate::sampler::next_state_s;
use crate::sampler::rand_unit_s;
use crate::sampler::rand_range_s;
use crate::vec3::Vec3;
use crate::vec3::view3;
use crate::vec3::vadd_s;
use crate::vec3::vneg_s;
use crate::vec3::vscale_s;
use crate::vec3::vdot_s;
use crate::vec3::vunit_s;
use crate::vec3::lemma_vdot_bound;
use crate::ray::DIR_LIM;
use crate::material::RI_MAX;
use vstd::arithmetic::mul::lemma_mul_upper_bound;

/// One half on the fixed-point grid.
pub const HALF: i128 = 5_000;

/// Two on the fixed-point grid.
pub const TWO_FX: i128 = 20_000;

/// How many candidate vectors `rand_vec_unit` draws before falling back.
pub const UNIT_TRIES: u32 = 64;

/// The jitter offset drawn from state `st`, with the state it leaves.
pub open spec fn sample_square_s(st: u64) -> ((int, int, int), u64) {
    let x = rand_unit_s(st) - (HALF as int);
    let st1 = next_state_s(st);
    let y = rand_unit_s(st1) - (HALF as int);
    let st2 = next_state_s(st1);
    ((x, y, 0), st2)
}

/// The random vector drawn from state `st`, with the state it leaves.
pub open spec fn rand_vec_s(st: u64, min: int, max: int) -> ((int, int, int), u64) {
    let x = rand_range_s(st, min, max);
    let st1 = next_state_s(st);
    let y = rand_range_s(st1, min, max);
    let st2 = next_state_s(st1);
    let z = rand_range_s(st2, min, max);
    let st3 = next_state_s(st2);
    ((x, y, z), st3)
}

/// The unit vector produced from state `st` with `fuel` draws left: reject
/// candidates whose squared length is off the grid or above one, and fall
/// back to the `z` axis when the fuel runs out.
pub open spec fn rand_vec_unit_s(st: u64, fuel: nat) -> ((int, int, int), u64)
    decreases fuel,
{
    if fuel == 0 {
        ((0, 0, SCALE as int), st)
    } else {
        let drawn = rand_vec_s(st, -(SCALE as int), SCALE as int);
        let d = vdot_s(drawn.0, drawn.0);
        if 0 < d && d <= SCALE as int {
            (vunit_s(drawn.0), drawn.1)
        } else {
            rand_vec_unit_s(drawn.1, (fuel - 1) as nat)
        }
    }
}

/// The mirror image of `v` about `n`: `v - n * (v . n) * 2`.
pub open spec fn reflect_s(v: (int, int, int), n: (int, int, int)) -> (int, int, int) {
    crate::vec3::vsub_s(v, vscale_s(vscale_s(n, vdot_s(v, n)), TWO_FX as int))
}

/// Snell refraction of the unit vector `v` at normal `n` with index ratio
/// `ratio`, decomposed into perpendicular and parallel parts.
pub open spec fn refract_s(v: (int, int, int), n: (int, int, int), ratio: int) -> (int, int, int) {
    let cos0 = vdot_s(vneg_s(v), n);
    let cos = if cos0 > SCALE as int {
        SCALE as int
    } else {
        cos0
    };
    let inner = vadd_s(v, vscale_s(n, cos));
    let perp = vscale_s(inner, ratio);
    let p2 = vdot_s(perp, perp);
    let m0 = (SCALE as int) - p2;
    let m = if m0 < 0 {
        -m0
    } else {
        m0
    };
    let par = vscale_s(n, -fx_sqrt_s(m));
    vadd_s(perp, par)
}

/// A sub-pixel jitter offset: two draws in `[-1/2, 1/2)` and a zero `z`.
pub fn sample_square(s: &mut Sampler) -> (r: Vec3)
    ensures
        view3(r) == sample_square_s(old(s).state).0,
        final(s).state == sample_square_s(old(s).state).1,
        r.bounded(SCALE as int),
{
    let x: i128 = s.rand() - HALF;
    let y: i128 = s.rand() - HALF;
    Vec3::new(x, y, 0)
}

/// A vector with three independent draws in `[min, max)`.
pub fn rand_vec(s: &mut Sampler, min: i128, max: i128) -> (r: Vec3)
    requires
        min < max,
        iabs(min as int) <= SCALE as int,
        iabs(max as int) <= SCALE as int,
    ensures
        view3(r) == rand_vec_s(old(s).state, min as int, max as int).0,
        final(s).state == rand_vec_s(old(s).state, min as int, max as int).1,
        r.bounded(SCALE as int),
{
    let x: i128 = s.rand_range(min, max);
    let y: i128 = s.rand_range(min, max);
    let z: i128 = s.rand_range(min, max);
    Vec3::new(x, y, z)
}

/// A uniformly distributed unit vector, by rejection sampling inside the
/// unit ball; falls back to the `z` axis after `UNIT_TRIES` rejections.
pub fn rand_vec_unit(s: &mut Sampler) -> (r: Vec3)
    ensures
        view3(r) == rand_vec_unit_s(old(s).state, UNIT_TRIES as nat).0,
        final(s).state == rand_vec_unit_s(old(s).state, UNIT_TRIES as nat).1,
        r.bounded(2 * SCALE as int),
{
    rand_vec_unit_tries(s, UNIT_TRIES)
}

fn rand_vec_unit_tries(s: &mut Sampler, fuel: u32) -> (r: Vec3)
    ensures
        view3(r) == rand_vec_unit_s(old(s).state, fuel as nat).0,
        final(s).state == rand_vec_unit_s(old(s).state, fuel as nat).1,
        r.bounded(2 * SCALE as int),
    decreases fuel,
{
    if fuel == 0 {
        return Vec3::new(0, 0, SCALE);
    }
    let v: Vec3 = rand_vec(s, -SCALE, SCALE);
    proof {
        lemma_sq_cap(v.x as int, SCALE as int);
        lemma_sq_cap(v.y as int, SCALE as int);
        lemma_sq_cap(v.z as int, SCALE as int);
    }
    let d: i128 = v.length_squared();
    if 0 < d && d <= SCALE {
        v.unit()
    } else {
        rand_vec_unit_tries(s, fuel - 1)
    }
}

/// Reflect `v` about the normal `n`.
pub fn reflect(v: &Vec3, normal: &Vec3) -> (r: Vec3)
    requires
        v.bounded(DIR_LIM as int),
        normal.bounded(2 * SCALE as int),
    ensures
        view3(r) == reflect_s(view3(*v), view3(*normal)),
        r.bounded(250_000_000int),
        v.bounded(2 * SCALE as int) ==> r.bounded(500_000int),
{
    proof {
        if v.bounded(2 * SCALE as int) {
            lemma_vdot_bound(view3(*v), view3(*normal), 2 * SCALE as int, 2 * SCALE as int);
            let d0 = vdot_s(view3(*v), view3(*normal));
            lemma_fx_mul_bound(normal.x as int, d0, 2 * SCALE as int, 120_000int);
            lemma_fx_mul_bound(normal.y as int, d0, 2 * SCALE as int, 120_000int);
            lemma_fx_mul_bound(normal.z as int, d0, 2 * SCALE as int, 120_000int);
            let sc0 = vscale_s(view3(*normal), d0);
            lemma_fx_mul_bound(sc0.0, TWO_FX as int, 240_000int, TWO_FX as int);
            lemma_fx_mul_bound(sc0.1, TWO_FX as int, 240_000int, TWO_FX as int);
            lemma_fx_mul_bound(sc0.2, TWO_FX as int, 240_000int, TWO_FX as int);
        }
    }
    proof {
        lemma_prod_cap(v.x as int, normal.x as int, DIR_LIM as int, 2 * SCALE as int);
        lemma_prod_cap(v.y as int, normal.y as int, DIR_LIM as int, 2 * SCALE as int);
        lemma_prod_cap(v.z as int, normal.z as int, DIR_LIM as int, 2 * SCALE as int);
        lemma_vdot_bound(view3(*v), view3(*normal), DIR_LIM as int, 2 * SCALE as int);
    }
    let d: i128 = v.dot(normal);
    proof {
        lemma_prod_cap(normal.x as int, d as int, 2 * SCALE as int, 60_000_000int);
        lemma_prod_cap(normal.y as int, d as int, 2 * SCALE as int, 60_000_000int);
        lemma_prod_cap(normal.z as int, d as int, 2 * SCALE as int, 60_000_000int);
        lemma_fx_mul_bound(normal.x as int, d as int, 2 * SCALE as int, 60_000_000int);
        lemma_fx_mul_bound(normal.y as int, d as int, 2 * SCALE as int, 60_000_000int);
        lemma_fx_mul_bound(normal.z as int, d as int, 2 * SCALE as int, 60_000_000int);
    }
    let scaled: Vec3 = normal.scale(d);
    proof {
        lemma_prod_cap(scaled.x as int, TWO_FX as int, 120_000_000int, TWO_FX as int);
        lemma_prod_cap(scaled.y as int, TWO_FX as int, 120_000_000int, TWO_FX as int);
        lemma_prod_cap(scaled.z as int, TWO_FX as int, 120_000_000int, TWO_FX as int);
        lemma_fx_mul_bound(scaled.x as int, TWO_FX as int, 120_000_000int, TWO_FX as int);
        lemma_fx_mul_bound(scaled.y as int, TWO_FX as int, 120_000_000int, TWO_FX as int);
        lemma_fx_mul_bound(scaled.z as int, TWO_FX as int, 120_000_000int, TWO_FX as int);
    }
    let twice: Vec3 = scaled.scale(TWO_FX);
    v.sub(&twice)
}

/// Refract the unit vector `v` at normal `n` with index ratio `ratio`.
pub fn refract(v: &Vec3, normal: &Vec3, etai_over_etat: i128) -> (r: Vec3)
    requires
        v.bounded(2 * SCALE as int),
        normal.bounded(2 * SCALE as int),
        0 < etai_over_etat,
        etai_over_etat <= RI_MAX,
    ensures
        view3(r) == refract_s(view3(*v), view3(*normal), etai_over_etat as int),
        r.bounded(DIR_LIM as int),
{
    let nv: Vec3 = v.neg();
    proof {
        lemma_sq_cap(nv.x as int, 2 * SCALE as int);
        lemma_sq_cap(nv.y as int, 2 * SCALE as int);
        lemma_sq_cap(nv.z as int, 2 * SCALE as int);
        lemma_prod_cap(nv.x as int, normal.x as int, 2 * SCALE as int, 2 * SCALE as int);
        lemma_prod_cap(nv.y as int, normal.y as int, 2 * SCALE as int, 2 * SCALE as int);
        lemma_prod_cap(nv.z as int, normal.z as int, 2 * SCALE as int, 2 * SCALE as int);
        lemma_vdot_bound(view3(nv), view3(*normal), 2 * SCALE as int, 2 * SCALE as int);
    }
    let cos0: i128 = nv.dot(normal);
    let cos_theta: i128 = if cos0 > SCALE {
        SCALE
    } else {
        cos0
    };
    proof {
        lemma_prod_cap(normal.x as int, cos_theta as int, 2 * SCALE as int, 120_000int);
        lemma_prod_cap(normal.y as int, cos_theta as int, 2 * SCALE as int, 120_000int);
        lemma_prod_cap(normal.z as int, cos_theta as int, 2 * SCALE as int, 120_000int);
        lemma_fx_mul_bound(normal.x as int, cos_theta as int, 2 * SCALE as int, 120_000int);
        lemma_fx_mul_bound(normal.y as int, cos_theta as int, 2 * SCALE as int, 120_000int);
        lemma_fx_mul_bound(normal.z as int, cos_theta as int, 2 * SCALE as int, 120_000int);
    }
    let inner: Vec3 = v.add(&normal.scale(cos_theta));
    proof {
        lemma_prod_cap(inner.x as int, etai_over_etat as int, 260_000int, RI_MAX as int);
        lemma_prod_cap(inner.y as int, etai_over_etat as int, 260_000int, RI_MAX as int);
        lemma_prod_cap(inner.z as int, etai_over_etat as int, 260_000int, RI_MAX as int);
        lemma_fx_mul_bound(inner.x as int, etai_over_etat as int, 260_000int, RI_MAX as int);
        lemma_fx_mul_bound(inner.y as int, etai_over_etat as int, 260_000int, RI_MAX as int);
        lemma_fx_mul_bound(inner.z as int, etai_over_etat as int, 260_000int, RI_MAX as int);
    }
    let perp: Vec3 = inner.scale(etai_over_etat);
    proof {
        lemma_sq_cap(perp.x as int, 1_040_000int);
        lemma_sq_cap(perp.y as int, 1_040_000int);
        lemma_sq_cap(perp.z as int, 1_040_000int);
        lemma_vdot_bound(view3(perp), view3(perp), 1_040_000int, 1_040_000int);
    }
    let p2: i128 = perp.length_squared();
    let m0: i128 = SCALE - p2;
    let m: i128 = if m0 < 0 {
        -m0
    } else {
        m0
    };
    let sq: i128 = fx_sqrt(m);
    proof {
        lemma_refract_sqrt_cap(m as int, sq as int);
        lemma_prod_cap(normal.x as int, -(sq as int), 2 * SCALE as int, 2_000_000int);
        lemma_prod_cap(normal.y as int, -(sq as int), 2 * SCALE as int, 2_000_000int);
        lemma_prod_cap(normal.z as int, -(sq as int), 2 * SCALE as int, 2_000_000int);
        lemma_fx_mul_bound(normal.x as int, -(sq as int), 2 * SCALE as int, 2_000_000int);
        lemma_fx_mul_bound(normal.y as int, -(sq as int), 2 * SCALE as int, 2_000_000int);
        lemma_fx_mul_bound(normal.z as int, -(sq as int), 2 * SCALE as int, 2_000_000int);
    }
    let par: Vec3 = normal.scale(-sq);
    perp.add(&par)
}

/// `|x| <= m` gives `|x| * |x| <= m * m`.
proof fn lemma_sq_cap(x: int, m: int)
    requires
        iabs(x) <= m,
    ensures
        iabs(x) * iabs(x) <= m * m,
{
    lemma_mul_upper_bound(iabs(x), m, iabs(x), m);
}

/// `|x| <= mx` and `|y| <= my` give `|x| * |y| <= mx * my`.
proof fn lemma_prod_cap(x: int, y: int, mx: int, my: int)
    requires
        iabs(x) <= mx,
        iabs(y) <= my,
    ensures
        iabs(x) * iabs(y) <= mx * my,
{
    lemma_mul_upper_bound(iabs(x), mx, iabs(y), my);
}

/// The square root taken inside `refract` is at most `2e6`.
proof fn lemma_refract_sqrt_cap(m: int, s: int)
    requires
        0 <= m,
        m <= 340_000_000int,
        0 <= s,
        s * s <= m * (SCALE as int),
    ensures
        s <= 2_000_000int,
{
    vstd::arithmetic::mul::lemma_mul_inequality(m, 340_000_000int, SCALE as int);
    if s > 2_000_000int {
        assert(2_000_000int * 2_000_000int < s * s) by (nonlinear_arith)
            requires
                2_000_000int < s,
        ;
        assert(false);
    }
}

} // verus!
