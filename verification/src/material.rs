//! Materials and their scattering behaviour.
//!
//! `Material::scatter` decides, per variant, the outgoing ray and the color
//! attenuation for a surface hit — or reports absorption with `None`.  The
//! decision is proved equal to the specification twin `scatter_s`, which
//! also pins down exactly how much randomness each branch consumes; total
//! internal reflection in particular consumes none.

use vstd::prelude::*;

verus! {

use crate::fx::SCALE;
use crate::fx::iabs;
use crate::fx::fx_mul_s;
use crate::fx::fx_div_s;
use crate::fx::fx_sqrt_s;
use crate::fx::fx_mul;
use crate::fx::fx_div;
use crate::fx::fx_sqrt;
use crate::fx::lemma_fx_div_mag;
use crate::fx::lemma_fx_mul_bound;
use crate::vec3::Vec3;
use crate::vec3::Color;
use crate::vec3::view3;
use crate::vec3::vadd_s;
use crate::vec3::vneg_s;
use crate::vec3::vscale_s;
use crate::vec3::vdot_s;
use crate::vec3::vunit_s;
use crate::vec3::lemma_vdot_bound;
use crate::vec3::lemma_vdot_self_nonneg;
use crate::vec3::lemma_fx_sq_nonneg;
use crate::ray::Ray;
use crate::ray::Hit;
use crate::ray::hit_ok;
use crate::ray::DIR_LIM;
use crate::sampler::Sampler;
use crate::sampler::next_state_s;
use crate::sampler::rand_unit_s;
use crate::util::reflect;
use crate::util::refract;
use crate::util::rand_vec_unit;
use crate::util::reflect_s;
use crate::util::refract_s;
use crate::util::rand_vec_unit_s;
use crate::util::UNIT_TRIES;
use vstd::arithmetic::mul::lemma_mul_upper_bound;
use vstd::arithmetic::mul::lemma_mul_inequality;
use vstd::arithmetic::div_mod::lemma_div_is_ordered_by_denominator;

/// Smallest refraction index a dielectric accepts (one quarter).
pub const RI_MIN: i128 = 2_500;

/// Largest refraction index a dielectric accepts (four).
pub const RI_MAX: i128 = 40_000;

/// A material's decision: the outgoing ray and the color attenuation.
pub struct Scatter {
    pub ray: Ray,
    pub attenuation: Color,
}

/// A surface material: one of the three shading models.
#[derive(Clone, Copy, Debug, PartialEq, Eq, Structural)]
pub enum Material {
    /// Diffuse: scatters around the normal, attenuating by `albedo`.
    Lambertian { albedo: Color },
    /// Reflective: mirrors the ray, roughened by `fuzz`, attenuating by `albedo`.
    Metal { albedo: Color, fuzz: i128 },
    /// Transparent: reflects or refracts by index, never absorbing.
    Dielectric { refraction_index: i128 },
}

/// A color whose channels are linear intensities in `[0, 1]`.
pub open spec fn color_wf(c: Color) -> bool {
    &&& 0 <= c.x && c.x <= SCALE
    &&& 0 <= c.y && c.y <= SCALE
    &&& 0 <= c.z && c.z <= SCALE
}

/// The facts every constructed material satisfies.
pub open spec fn material_wf(m: Material) -> bool {
    match m {
        Material::Lambertian { albedo } => color_wf(albedo),
        Material::Metal { albedo, fuzz } => color_wf(albedo) && 0 <= fuzz && fuzz <= SCALE,
        Material::Dielectric { refraction_index } => RI_MIN <= refraction_index
            && refraction_index <= RI_MAX,
    }
}

/// The Schlick reflectance approximation `r0 + (1 - r0) * (1 - cos)^5`.
pub open spec fn schlick_s(cos: int, ri: int) -> int {
    let r0a = fx_div_s((SCALE as int) - ri, (SCALE as int) + ri);
    let r0 = fx_mul_s(r0a, r0a);
    let p1 = (SCALE as int) - cos;
    let p2 = fx_mul_s(p1, p1);
    let p4 = fx_mul_s(p2, p2);
    let p5 = fx_mul_s(p4, p1);
    r0 + fx_mul_s((SCALE as int) - r0, p5)
}

/// What a diffuse surface scatters: the normal plus a random unit vector,
/// falling back to the normal when that nearly cancels.
pub open spec fn lambertian_scatter_s(
    albedo: Color,
    hpoint: (int, int, int),
    hnormal: (int, int, int),
    st: u64,
) -> (Option<(((int, int, int), (int, int, int)), (int, int, int))>, u64) {
    let drawn = rand_vec_unit_s(st, UNIT_TRIES as nat);
    let cand = vadd_s(hnormal, drawn.0);
    let dir = if vdot_s(cand, cand) == 0 {
        hnormal
    } else {
        cand
    };
    (Some(((hpoint, dir), view3(albedo))), drawn.1)
}

/// What a metal surface scatters: the fuzzed mirror reflection, absorbed
/// when it points into the surface or degenerates on the grid.
pub open spec fn metal_scatter_s(
    albedo: Color,
    fuzz: int,
    rdir: (int, int, int),
    hpoint: (int, int, int),
    hnormal: (int, int, int),
    st: u64,
) -> (Option<(((int, int, int), (int, int, int)), (int, int, int))>, u64) {
    let refl = reflect_s(rdir, hnormal);
    if vdot_s(refl, refl) == 0 {
        (None, st)
    } else {
        let drawn = rand_vec_unit_s(st, UNIT_TRIES as nat);
        let fuzzed = vadd_s(vunit_s(refl), vscale_s(drawn.0, fuzz));
        if vdot_s(fuzzed, hnormal) <= 0 {
            (None, drawn.1)
        } else if vdot_s(fuzzed, fuzzed) == 0 {
            (None, drawn.1)
        } else {
            (Some(((hpoint, fuzzed), view3(albedo))), drawn.1)
        }
    }
}

/// What a dielectric surface scatters: reflection under total internal
/// reflection or a winning Schlick draw, refraction otherwise; the
/// attenuation is always neutral white.
pub open spec fn dielectric_scatter_s(
    refraction_index: int,
    rdir: (int, int, int),
    hpoint: (int, int, int),
    hnormal: (int, int, int),
    front: bool,
    st: u64,
) -> (Option<(((int, int, int), (int, int, int)), (int, int, int))>, u64) {
    let ri = if front {
        fx_div_s(SCALE as int, refraction_index)
    } else {
        refraction_index
    };
    let ud = vunit_s(rdir);
    let cos0 = vdot_s(vneg_s(ud), hnormal);
    let cos = if cos0 > SCALE as int {
        SCALE as int
    } else {
        cos0
    };
    let m0 = (SCALE as int) - fx_mul_s(cos, cos);
    let msin = if m0 < 0 {
        0
    } else {
        m0
    };
    let sin = fx_sqrt_s(msin);
    let white = (SCALE as int, SCALE as int, SCALE as int);
    if fx_mul_s(ri, sin) > SCALE as int {
        // Total internal reflection: no randomness is consulted.
        let cand = reflect_s(ud, hnormal);
        let dir = if vdot_s(cand, cand) == 0 {
            hnormal
        } else {
            cand
        };
        (Some(((hpoint, dir), white)), st)
    } else {
        let q = rand_unit_s(st);
        let st1 = next_state_s(st);
        let cand = if schlick_s(cos, ri) > q {
            reflect_s(ud, hnormal)
        } else {
            refract_s(ud, hnormal, ri)
        };
        let dir = if vdot_s(cand, cand) == 0 {
            hnormal
        } else {
            cand
        };
        (Some(((hpoint, dir), white)), st1)
    }
}

/// What `scatter` decides from state `st`: possibly an outgoing ray (origin
/// and direction) with an attenuation, and the state left behind.
pub open spec fn scatter_s(
    m: Material,
    rdir: (int, int, int),
    hpoint: (int, int, int),
    hnormal: (int, int, int),
    front: bool,
    st: u64,
) -> (Option<(((int, int, int), (int, int, int)), (int, int, int))>, u64) {
    match m {
        Material::Lambertian { albedo } => lambertian_scatter_s(albedo, hpoint, hnormal, st),
        Material::Metal { albedo, fuzz } => metal_scatter_s(
            albedo,
            fuzz as int,
            rdir,
            hpoint,
            hnormal,
            st,
        ),
        Material::Dielectric { refraction_index } => dielectric_scatter_s(
            refraction_index as int,
            rdir,
            hpoint,
            hnormal,
            front,
            st,
        ),
    }
}

/// The facts `scatter` guarantees of a produced record, beyond the twin.
pub open spec fn scatter_ok(sc: Scatter, hit: Hit) -> bool {
    &&& sc.ray.orig == hit.point
    &&& sc.ray.dir.bounded(DIR_LIM as int)
    &&& 0 < vdot_s(view3(sc.ray.dir), view3(sc.ray.dir))
    &&& color_wf(sc.attenuation)
}

impl Material {
    /// Decide the outgoing ray and attenuation for `hit`, or report
    /// absorption; exactly as `scatter_s` decides it.
    pub fn scatter(&self, ray: &Ray, hit: &Hit, s: &mut Sampler) -> (r: Option<Scatter>)
        requires
            material_wf(*self),
            hit_ok(*hit),
            ray.dir.bounded(DIR_LIM as int),
            0 < vdot_s(view3(ray.dir), view3(ray.dir)),
        ensures
            ({
                let tw = scatter_s(
                    *self,
                    view3(ray.dir),
                    view3(hit.point),
                    view3(hit.normal),
                    hit.front_face,
                    old(s).state,
                );
                &&& final(s).state == tw.1
                &&& match r {
                    None => tw.0 is None,
                    Some(sc) => {
                        &&& tw.0 == Some(
                            ((view3(sc.ray.orig), view3(sc.ray.dir)), view3(sc.attenuation)),
                        )
                        &&& scatter_ok(sc, *hit)
                    },
                }
            }),
    {
        match *self {
            Material::Lambertian { albedo } => Some(scatter_lambertian(albedo, hit, s)),
            Material::Metal { albedo, fuzz } => scatter_metal(albedo, fuzz, ray, hit, s),
            Material::Dielectric { refraction_index } => Some(
                scatter_dielectric(refraction_index, ray, hit, s),
            ),
        }
    }

    /// The Schlick reflectance approximation; exact per `schlick_s`.
    fn reflectance(cosine: i128, refraction_index: i128) -> (r: i128)
        requires
            0 < refraction_index,
            iabs(refraction_index as int) <= RI_MAX as int,
            iabs(cosine as int) <= 120_000int,
            cosine <= SCALE,
        ensures
            r == schlick_s(cosine as int, refraction_index as int),
    {
        proof {
            lemma_fx_div_mag((SCALE - refraction_index) as int, (SCALE + refraction_index) as int);
            assert(iabs(fx_div_s((SCALE - refraction_index) as int, (SCALE + refraction_index) as int))
                <= 500_000_000int);
        }
        let r0a: i128 = fx_div(SCALE - refraction_index, SCALE + refraction_index);
        proof {
            lemma_cap(r0a as int, r0a as int, 500_000_000int, 500_000_000int);
            lemma_fx_mul_bound(r0a as int, r0a as int, 500_000_000int, 500_000_000int);
        }
        let r0: i128 = fx_mul(r0a, r0a);
        let p1: i128 = SCALE - cosine;
        proof {
            lemma_cap(p1 as int, p1 as int, 130_000int, 130_000int);
            lemma_fx_mul_bound(p1 as int, p1 as int, 130_000int, 130_000int);
        }
        let p2: i128 = fx_mul(p1, p1);
        proof {
            lemma_cap(p2 as int, p2 as int, 1_690_000int, 1_690_000int);
            lemma_fx_mul_bound(p2 as int, p2 as int, 1_690_000int, 1_690_000int);
        }
        let p4: i128 = fx_mul(p2, p2);
        proof {
            lemma_cap(p4 as int, p1 as int, 285_610_000int, 130_000int);
            lemma_fx_mul_bound(p4 as int, p1 as int, 285_610_000int, 130_000int);
        }
        let p5: i128 = fx_mul(p4, p1);
        proof {
            lemma_cap((SCALE - r0) as int, p5 as int, 25_000_100_000_000int, 3_712_930_000int);
            lemma_fx_mul_bound((SCALE - r0) as int, p5 as int, 25_000_100_000_000int, 3_712_930_000int);
        }
        r0 + fx_mul(SCALE - r0, p5)
    }
}

/// The diffuse bounce; never absorbs.
fn scatter_lambertian(albedo: Color, hit: &Hit, s: &mut Sampler) -> (r: Scatter)
    requires
        color_wf(albedo),
        hit_ok(*hit),
    ensures
        ({
            let tw = lambertian_scatter_s(albedo, view3(hit.point), view3(hit.normal), old(s).state);
            &&& final(s).state == tw.1
            &&& tw.0 == Some(((view3(r.ray.orig), view3(r.ray.dir)), view3(r.attenuation)))
            &&& scatter_ok(r, *hit)
        }),
{
    let u: Vec3 = rand_vec_unit(s);
    proof {
        lemma_cap(hit.normal.x as int, u.x as int, 2 * SCALE as int, 2 * SCALE as int);
    }
    let cand: Vec3 = hit.normal.add(&u);
    proof {
        lemma_sq_caps(cand, 4 * SCALE as int);
        lemma_vdot_self_nonneg(view3(cand));
    }
    let direction: Vec3 = if cand.near_zero() {
        hit.normal
    } else {
        cand
    };
    Scatter { ray: Ray::new(hit.point, direction), attenuation: albedo }
}

/// The fuzzed mirror bounce; absorbs grazing or degenerate reflections.
fn scatter_metal(albedo: Color, fuzz: i128, ray: &Ray, hit: &Hit, s: &mut Sampler) -> (r: Option<
    Scatter,
>)
    requires
        color_wf(albedo),
        0 <= fuzz && fuzz <= SCALE,
        hit_ok(*hit),
        ray.dir.bounded(DIR_LIM as int),
    ensures
        ({
            let tw = metal_scatter_s(
                albedo,
                fuzz as int,
                view3(ray.dir),
                view3(hit.point),
                view3(hit.normal),
                old(s).state,
            );
            &&& final(s).state == tw.1
            &&& match r {
                None => tw.0 is None,
                Some(sc) => {
                    &&& tw.0 == Some(
                        ((view3(sc.ray.orig), view3(sc.ray.dir)), view3(sc.attenuation)),
                    )
                    &&& scatter_ok(sc, *hit)
                },
            }
        }),
{
    let reflected: Vec3 = reflect(ray.direction(), &hit.normal);
    proof {
        lemma_sq_caps(reflected, 250_000_000int);
        lemma_vdot_self_nonneg(view3(reflected));
        lemma_vdot_bound(view3(reflected), view3(reflected), 250_000_000int, 250_000_000int);
    }
    if reflected.near_zero() {
        // A reflection shorter than one grid step cannot be normalized;
        // treat it as absorbed.
        return None;
    }
    let ru: Vec3 = reflected.unit();
    let u: Vec3 = rand_vec_unit(s);
    proof {
        lemma_cap(u.x as int, fuzz as int, 2 * SCALE as int, SCALE as int);
        lemma_cap(u.y as int, fuzz as int, 2 * SCALE as int, SCALE as int);
        lemma_cap(u.z as int, fuzz as int, 2 * SCALE as int, SCALE as int);
        lemma_fx_mul_bound(u.x as int, fuzz as int, 2 * SCALE as int, SCALE as int);
        lemma_fx_mul_bound(u.y as int, fuzz as int, 2 * SCALE as int, SCALE as int);
        lemma_fx_mul_bound(u.z as int, fuzz as int, 2 * SCALE as int, SCALE as int);
    }
    let fuzzed: Vec3 = ru.add(&u.scale(fuzz));
    proof {
        lemma_caps(fuzzed, hit.normal, 4 * SCALE as int, 2 * SCALE as int);
        lemma_sq_caps(fuzzed, 4 * SCALE as int);
        lemma_vdot_self_nonneg(view3(fuzzed));
    }
    if fuzzed.dot(&hit.normal) <= 0 {
        return None;
    }
    if fuzzed.near_zero() {
        // Fuzz cancelled the reflection below the grid; absorb.
        return None;
    }
    Some(Scatter { ray: Ray::new(hit.point, fuzzed), attenuation: albedo })
}

/// The transparent bounce; never absorbs, never colors.
#[verifier::rlimit(100)]
fn scatter_dielectric(refraction_index: i128, ray: &Ray, hit: &Hit, s: &mut Sampler) -> (r: Scatter)
    requires
        RI_MIN <= refraction_index && refraction_index <= RI_MAX,
        hit_ok(*hit),
        ray.dir.bounded(DIR_LIM as int),
        0 < vdot_s(view3(ray.dir), view3(ray.dir)),
    ensures
        ({
            let tw = dielectric_scatter_s(
                refraction_index as int,
                view3(ray.dir),
                view3(hit.point),
                view3(hit.normal),
                hit.front_face,
                old(s).state,
            );
            &&& final(s).state == tw.1
            &&& tw.0 == Some(((view3(r.ray.orig), view3(r.ray.dir)), view3(r.attenuation)))
            &&& scatter_ok(r, *hit)
        }),
{
    let ri: i128 = if hit.front_face {
        proof {
            lemma_ri_bounds(refraction_index as int);
        }
        fx_div(SCALE, refraction_index)
    } else {
        refraction_index
    };
    proof {
        lemma_sq_caps(ray.dir, DIR_LIM as int);
        lemma_vdot_bound(view3(ray.dir), view3(ray.dir), DIR_LIM as int, DIR_LIM as int);
    }
    let unit_direction: Vec3 = ray.direction().unit();
    let nv: Vec3 = unit_direction.neg();
    proof {
        lemma_caps(nv, hit.normal, 2 * SCALE as int, 2 * SCALE as int);
    }
    let cos0: i128 = nv.dot(&hit.normal);
    let cos_theta: i128 = if cos0 > SCALE {
        SCALE
    } else {
        cos0
    };
    proof {
        lemma_cap(cos_theta as int, cos_theta as int, 120_000int, 120_000int);
        lemma_fx_mul_bound(cos_theta as int, cos_theta as int, 120_000int, 120_000int);
        lemma_fx_sq_nonneg(cos_theta as int);
    }
    let m0: i128 = SCALE - fx_mul(cos_theta, cos_theta);
    let msin: i128 = if m0 < 0 {
        0
    } else {
        m0
    };
    let sin_theta: i128 = fx_sqrt(msin);
    proof {
        lemma_sin_cap(msin as int, sin_theta as int);
        lemma_cap(ri as int, sin_theta as int, RI_MAX as int, SCALE as int);
        lemma_fx_mul_bound(ri as int, sin_theta as int, RI_MAX as int, SCALE as int);
    }
    let cannot_refract: bool = fx_mul(ri, sin_theta) > SCALE;
    let cand: Vec3 = if cannot_refract {
        reflect(&unit_direction, &hit.normal)
    } else {
        let refl_p: i128 = Material::reflectance(cos_theta, ri);
        let q: i128 = s.rand();
        if refl_p > q {
            reflect(&unit_direction, &hit.normal)
        } else {
            refract(&unit_direction, &hit.normal, ri)
        }
    };
    proof {
        lemma_sq_caps(cand, 10_000_000int);
        lemma_vdot_self_nonneg(view3(cand));
    }
    let direction: Vec3 = if cand.near_zero() {
        // Below the grid's resolution; leave along the normal.
        hit.normal
    } else {
        cand
    };
    Scatter { ray: Ray::new(hit.point, direction), attenuation: Vec3::one() }
}

/// A diffuse material with the given base color.
pub fn lambertian(albedo: Color) -> (r: Material)
    requires
        color_wf(albedo),
    ensures
        r == (Material::Lambertian { albedo }),
        material_wf(r),
{
    Material::Lambertian { albedo }
}

/// A reflective material with the given base color and roughness.
pub fn metal(albedo: Color, fuzz: i128) -> (r: Material)
    requires
        color_wf(albedo),
        0 <= fuzz && fuzz <= SCALE,
    ensures
        r == (Material::Metal { albedo, fuzz }),
        material_wf(r),
{
    Material::Metal { albedo, fuzz }
}

/// A transparent material with the given refraction index.
pub fn dielectric(refraction_index: i128) -> (r: Material)
    requires
        RI_MIN <= refraction_index && refraction_index <= RI_MAX,
    ensures
        r == (Material::Dielectric { refraction_index }),
        material_wf(r),
{
    Material::Dielectric { refraction_index }
}

/// A diffuse surface always scatters, and its attenuation is exactly the
/// material's albedo, whatever the hit and the sampler state.
pub proof fn lemma_lambertian_attenuation(
    albedo: Color,
    rdir: (int, int, int),
    hpoint: (int, int, int),
    hnormal: (int, int, int),
    front: bool,
    st: u64,
)
    ensures
        ({
            let tw = scatter_s((Material::Lambertian { albedo }), rdir, hpoint, hnormal, front, st);
            &&& tw.0 is Some
            &&& (tw.0->0).1 == view3(albedo)
        }),
{
}

/// A metal surface reports absorption whenever the fuzzed reflection's dot
/// product with the normal is not positive: any scatter it does return
/// leaves the surface on the normal's side.
pub proof fn lemma_metal_grazing_absorbs(
    albedo: Color,
    fuzz: i128,
    rdir: (int, int, int),
    hpoint: (int, int, int),
    hnormal: (int, int, int),
    front: bool,
    st: u64,
)
    ensures
        ({
            let tw = scatter_s(
                (Material::Metal { albedo, fuzz }),
                rdir,
                hpoint,
                hnormal,
                front,
                st,
            );
            tw.0 is Some ==> vdot_s(((tw.0->0).0).1, hnormal) > 0
        }),
{
}

/// Under total internal reflection (`ratio * sin > 1`) a dielectric always
/// reflects — never refracts — and consults no randomness: the sampler
/// state it leaves is the state it was given.
pub proof fn lemma_dielectric_total_internal_reflection(
    refraction_index: i128,
    rdir: (int, int, int),
    hpoint: (int, int, int),
    hnormal: (int, int, int),
    front: bool,
    st: u64,
)
    ensures
        ({
            let ri = if front {
                fx_div_s(SCALE as int, refraction_index as int)
            } else {
                refraction_index as int
            };
            let ud = vunit_s(rdir);
            let cos0 = vdot_s(vneg_s(ud), hnormal);
            let cos = if cos0 > SCALE as int {
                SCALE as int
            } else {
                cos0
            };
            let m0 = (SCALE as int) - fx_mul_s(cos, cos);
            let msin = if m0 < 0 {
                0
            } else {
                m0
            };
            let sin = fx_sqrt_s(msin);
            let tw = scatter_s(
                (Material::Dielectric { refraction_index }),
                rdir,
                hpoint,
                hnormal,
                front,
                st,
            );
            fx_mul_s(ri, sin) > SCALE as int ==> {
                let cand = reflect_s(ud, hnormal);
                let dir = if vdot_s(cand, cand) == 0 {
                    hnormal
                } else {
                    cand
                };
                &&& tw.1 == st
                &&& tw.0 is Some
                &&& ((tw.0->0).0).1 == dir
            }
        }),
{
}

/// `|x| <= mx` and `|y| <= my` give `|x| * |y| <= mx * my`.
proof fn lemma_cap(x: int, y: int, mx: int, my: int)
    requires
        iabs(x) <= mx,
        iabs(y) <= my,
    ensures
        iabs(x) * iabs(y) <= mx * my,
{
    lemma_mul_upper_bound(iabs(x), mx, iabs(y), my);
}

/// Component products of two bounded vectors are bounded.
proof fn lemma_caps(a: Vec3, b: Vec3, ma: int, mb: int)
    requires
        a.bounded(ma),
        b.bounded(mb),
    ensures
        iabs(a.x as int) * iabs(b.x as int) <= ma * mb,
        iabs(a.y as int) * iabs(b.y as int) <= ma * mb,
        iabs(a.z as int) * iabs(b.z as int) <= ma * mb,
{
    lemma_cap(a.x as int, b.x as int, ma, mb);
    lemma_cap(a.y as int, b.y as int, ma, mb);
    lemma_cap(a.z as int, b.z as int, ma, mb);
}

/// Component squares of a bounded vector are bounded.
proof fn lemma_sq_caps(a: Vec3, m: int)
    requires
        a.bounded(m),
    ensures
        iabs(a.x as int) * iabs(a.x as int) <= m * m,
        iabs(a.y as int) * iabs(a.y as int) <= m * m,
        iabs(a.z as int) * iabs(a.z as int) <= m * m,
{
    lemma_caps(a, a, m, m);
}

/// The inverted refraction index stays within the accepted index range.
proof fn lemma_ri_bounds(ri: int)
    requires
        RI_MIN as int <= ri,
        ri <= RI_MAX as int,
    ensures
        0 < fx_div_s(SCALE as int, ri),
        fx_div_s(SCALE as int, ri) <= RI_MAX as int,
        iabs(fx_div_s(SCALE as int, ri)) <= RI_MAX as int,
{
    let s = SCALE as int;
    assert(fx_div_s(s, ri) == (s * s) / ri);
    lemma_div_is_ordered_by_denominator(s * s, RI_MIN as int, ri);
    lemma_div_is_ordered_by_denominator(s * s, ri, RI_MAX as int);
    assert((s * s) / (RI_MIN as int) == 40_000int);
    assert((s * s) / (RI_MAX as int) == 2_500int);
}

/// The computed sine is at most one.
proof fn lemma_sin_cap(m: int, s: int)
    requires
        0 <= m,
        m <= SCALE as int,
        0 <= s,
        s * s <= m * (SCALE as int),
    ensures
        s <= SCALE as int,
        iabs(s) <= SCALE as int,
{
    lemma_mul_inequality(m, SCALE as int, SCALE as int);
    if s > SCALE as int {
        assert((SCALE as int) * (SCALE as int) < s * s) by (nonlinear_arith)
            requires
                (SCALE as int) < s,
        ;
        assert(false);
    }
}

} // verus!
