//! Rays, surface hits, spheres and the scene aggregate.
//!
//! `Sphere::hit` solves the quadratic ray–sphere equation with the half-b
//! substitution on the fixed-point grid; `World::hit` scans the scene
//! keeping a shrinking upper bound, which yields nearest-hit semantics in a
//! single pass.  Both are proved to return exactly the value of their
//! specification twins (`sphere_hit_s`, `world_hit_s`).

use vstd::prelude::*;

verus! {

use crate::fx::SCALE;
use crate::fx::iabs;
use crate::fx::fx_mul_s;
use crate::fx::fx_div_s;
use crate::fx::fx_sqrt_s;
use crate::fx::fx_mul;
use crate::fx::fx_div;
use crate::fx::fx_sqrt;
use crate::fx::lemma_fx_mul_bound;
use crate::vec3::Vec3;
use crate::vec3::Point3;
use crate::vec3::view3;
use crate::vec3::bounded3;
use crate::vec3::vadd_s;
use crate::vec3::vsub_s;
use crate::vec3::vneg_s;
use crate::vec3::vscale_s;
use crate::vec3::vdiv_s;
use crate::vec3::vdot_s;
use crate::vec3::lemma_vdot_bound;
use crate::vec3::lemma_vdot_self_nonneg;
use crate::material::Material;
use crate::material::material_wf;
use crate::interval::Interval;
use vstd::arithmetic::mul::lemma_mul_inequality;
use vstd::arithmetic::mul::lemma_mul_upper_bound;

/// Largest direction component a ray may carry.
pub const DIR_LIM: i128 = 10_000_000;

/// Largest origin component a ray may carry.
pub const ORIGIN_LIM: i128 = 1_000_000_000_000_000;

/// Largest sphere center component and radius the scene accepts.
pub const CENTER_LIM: i128 = 1_000_000_000_000;

/// The far bound of every intersection query (stands in for infinity).
pub const T_FAR: i128 = 10_000_000_000;

/// The near bound of the integrator's queries, suppressing self-intersection.
pub const T_ACNE: i128 = 10;

/// How far one bounce can move a ray origin: `T_FAR * DIR_LIM / SCALE`.
pub const BOUNCE_STEP: i128 = 10_000_000_000_000;

/// Largest component of a point reachable by one valid query.
pub const POINT_LIM: i128 = 1_010_000_000_000_000;

/// A ray whose geometry the tracer can work with: bounded components and a
/// direction long enough to register on the grid.
pub open spec fn ray_wf(r: Ray) -> bool {
    &&& r.orig.bounded(ORIGIN_LIM as int)
    &&& r.dir.bounded(DIR_LIM as int)
    &&& 0 < vdot_s(view3(r.dir), view3(r.dir))
}

/// The point `origin + t * direction`.
pub open spec fn ray_at_s(orig: (int, int, int), dir: (int, int, int), t: int) -> (int, int, int) {
    vadd_s(orig, vscale_s(dir, t))
}

/// A ray: an origin point and a direction vector.
#[derive(Clone, Copy, Debug, PartialEq, Eq, Structural)]
pub struct Ray {
    pub orig: Point3,
    pub dir: Vec3,
}

impl Ray {
    pub fn new(origin: Point3, direction: Vec3) -> (r: Self)
        ensures
            r.orig == origin && r.dir == direction,
    {
        Ray { orig: origin, dir: direction }
    }

    pub fn origin(&self) -> (r: &Point3)
        ensures
            r == self.orig,
    {
        &self.orig
    }

    pub fn direction(&self) -> (r: &Vec3)
        ensures
            r == self.dir,
    {
        &self.dir
    }

    /// The point a parameter `t` along the ray.
    pub fn at(&self, t: i128) -> (r: Point3)
        requires
            self.orig.bounded(ORIGIN_LIM as int),
            self.dir.bounded(DIR_LIM as int),
            iabs(t as int) <= T_FAR as int,
        ensures
            view3(r) == ray_at_s(view3(self.orig), view3(self.dir), t as int),
            r.bounded(POINT_LIM as int),
    {
        proof {
            lemma_fx_mul_bound(self.dir.x as int, t as int, DIR_LIM as int, T_FAR as int);
            lemma_fx_mul_bound(self.dir.y as int, t as int, DIR_LIM as int, T_FAR as int);
            lemma_fx_mul_bound(self.dir.z as int, t as int, DIR_LIM as int, T_FAR as int);
        }
        let step: Vec3 = self.dir.scale(t);
        self.orig.add(&step)
    }
}

/// A point moved by one bounded step stays within the enlarged bound.
pub proof fn lemma_point_growth(orig: (int, int, int), dir: (int, int, int), t: int, b: int)
    requires
        bounded3(orig, b),
        bounded3(dir, DIR_LIM as int),
        iabs(t) <= T_FAR as int,
        0 <= b,
    ensures
        bounded3(ray_at_s(orig, dir, t), b + BOUNCE_STEP as int),
{
    lemma_fx_mul_bound(dir.0, t, DIR_LIM as int, T_FAR as int);
    lemma_fx_mul_bound(dir.1, t, DIR_LIM as int, T_FAR as int);
    lemma_fx_mul_bound(dir.2, t, DIR_LIM as int, T_FAR as int);
}

/// What a ray records when it strikes a surface.
pub struct Hit {
    /// The ray parameter of the strike.
    pub t: i128,
    /// The struck point in world space.
    pub point: Point3,
    /// The unit-length surface normal, oriented against the incoming ray.
    pub normal: Vec3,
    /// Whether the ray struck the outward-facing side.
    pub front_face: bool,
    /// The material of the struck surface.
    pub material: Material,
}

/// The facts every produced hit satisfies.
pub open spec fn hit_ok(h: Hit) -> bool {
    &&& 0 < h.t
    &&& h.point.bounded(POINT_LIM as int)
    &&& h.normal.bounded(2 * SCALE as int)
    &&& 0 < vdot_s(view3(h.normal), view3(h.normal))
    &&& material_wf(h.material)
}

/// A sphere: center, non-negative radius and the material of its surface.
pub struct Sphere {
    pub center: Point3,
    pub radius: i128,
    pub material: Material,
}

/// The facts every constructed sphere satisfies.
pub open spec fn sphere_wf(s: Sphere) -> bool {
    &&& s.center.bounded(CENTER_LIM as int)
    &&& 0 <= s.radius && s.radius <= CENTER_LIM
    &&& material_wf(s.material)
}

/// The intersection record `sphere_hit_s` reports: parameter, point, normal
/// and the front-face flag.
pub open spec fn sphere_hit_s(
    s: Sphere,
    rorig: (int, int, int),
    rdir: (int, int, int),
    tmin: int,
    tmax: int,
) -> Option<(int, (int, int, int), (int, int, int), bool)> {
    if s.radius <= 0 {
        None
    } else {
        let oc = vsub_s(view3(s.center), rorig);
        let a = vdot_s(rdir, rdir);
        let h = vdot_s(rdir, oc);
        let c = vdot_s(oc, oc) - fx_mul_s(s.radius as int, s.radius as int);
        let disc = fx_mul_s(h, h) - fx_mul_s(a, c);
        if disc < 0 {
            None
        } else {
            let sqrtd = fx_sqrt_s(disc);
            let near = fx_div_s(h - sqrtd, a);
            let root = if tmin < near && near < tmax {
                near
            } else {
                fx_div_s(h + sqrtd, a)
            };
            if !(tmin < root && root < tmax) {
                None
            } else {
                let point = ray_at_s(rorig, rdir, root);
                let outward = vdiv_s(vsub_s(point, view3(s.center)), s.radius as int);
                if !bounded3(outward, 2 * SCALE as int) {
                    None
                } else if vdot_s(outward, outward) == 0 {
                    None
                } else {
                    let front = vdot_s(rdir, outward) < 0;
                    let normal = if front {
                        outward
                    } else {
                        vneg_s(outward)
                    };
                    Some((root, point, normal, front))
                }
            }
        }
    }
}

impl Sphere {
    /// A sphere; a negative radius is clamped to zero.
    pub fn new(center: Point3, radius: i128, material: Material) -> (r: Self)
        requires
            center.bounded(CENTER_LIM as int),
            iabs(radius as int) <= CENTER_LIM as int,
            material_wf(material),
        ensures
            r.center == center,
            r.radius == (if radius < 0 { 0int } else { radius as int }),
            r.material == material,
            sphere_wf(r),
    {
        let rad: i128 = if radius < 0 {
            0
        } else {
            radius
        };
        Sphere { center, radius: rad, material }
    }

    /// The nearest intersection of `ray` with this sphere strictly inside
    /// `(t.min, t.max)`, exactly as `sphere_hit_s` reports it.
    pub fn hit(&self, ray: &Ray, t: Interval) -> (r: Option<Hit>)
        requires
            sphere_wf(*self),
            ray_wf(*ray),
            0 < t.min,
            t.max <= T_FAR,
        ensures
            ({
                let tw = sphere_hit_s(*self, view3(ray.orig), view3(ray.dir), t.min as int, t.max as int);
                match r {
                    None => tw is None,
                    Some(h) => {
                        &&& tw == Some((h.t as int, view3(h.point), view3(h.normal), h.front_face))
                        &&& h.material == self.material
                        &&& t.min < h.t && h.t < t.max
                        &&& view3(h.point) == ray_at_s(view3(ray.orig), view3(ray.dir), h.t as int)
                        &&& hit_ok(h)
                    },
                }
            }),
    {
        if self.radius == 0 {
            // A zero-radius sphere has no surface on the grid.
            return None;
        }
        let oc: Vec3 = self.center.sub(ray.origin());
        proof {
            lemma_sq_prod_bound(ray.dir.x as int, DIR_LIM as int);
            lemma_sq_prod_bound(ray.dir.y as int, DIR_LIM as int);
            lemma_sq_prod_bound(ray.dir.z as int, DIR_LIM as int);
            lemma_vdot_bound(view3(ray.dir), view3(ray.dir), DIR_LIM as int, DIR_LIM as int);
        }
        let a: i128 = ray.direction().length_squared();
        proof {
            assert(oc.bounded(1_001_000_000_000_000int));
            lemma_prod_bound(ray.dir.x as int, oc.x as int, DIR_LIM as int, 1_001_000_000_000_000int);
            lemma_prod_bound(ray.dir.y as int, oc.y as int, DIR_LIM as int, 1_001_000_000_000_000int);
            lemma_prod_bound(ray.dir.z as int, oc.z as int, DIR_LIM as int, 1_001_000_000_000_000int);
            lemma_vdot_bound(view3(ray.dir), view3(oc), DIR_LIM as int, 1_001_000_000_000_000int);
        }
        let h: i128 = ray.direction().dot(&oc);
        proof {
            lemma_sq_prod_bound(oc.x as int, 1_001_000_000_000_000int);
            lemma_sq_prod_bound(oc.y as int, 1_001_000_000_000_000int);
            lemma_sq_prod_bound(oc.z as int, 1_001_000_000_000_000int);
            lemma_vdot_bound(view3(oc), view3(oc), 1_001_000_000_000_000int, 1_001_000_000_000_000int);
            lemma_sq_prod_bound(self.radius as int, CENTER_LIM as int);
            lemma_fx_mul_bound(self.radius as int, self.radius as int, CENTER_LIM as int, CENTER_LIM as int);
        }
        let c: i128 = oc.length_squared() - fx_mul(self.radius, self.radius);
        proof {
            // |h| <= 3.1e18 and |a| <= 3e10, |c| <= 3.2e26, so both products
            // of the discriminant stay within what fx_mul accepts.
            assert(iabs(h as int) <= 3_100_000_000_000_000_000int);
            assert(iabs(a as int) <= 30_000_000_000int);
            assert(iabs(c as int) <= 320_000_000_000_000_000_000_000_000int);
            lemma_prod_bound(h as int, h as int, 3_100_000_000_000_000_000int, 3_100_000_000_000_000_000int);
            lemma_prod_bound(a as int, c as int, 30_000_000_000int, 320_000_000_000_000_000_000_000_000int);
            lemma_fx_mul_bound(h as int, h as int, 3_100_000_000_000_000_000int, 3_100_000_000_000_000_000int);
            lemma_fx_mul_bound(a as int, c as int, 30_000_000_000int, 320_000_000_000_000_000_000_000_000int);
        }
        let discriminant: i128 = fx_mul(h, h) - fx_mul(a, c);
        if discriminant < 0 {
            return None;
        }
        let sqrtd: i128 = fx_sqrt(discriminant);
        proof {
            lemma_sqrt_bound(discriminant as int, sqrtd as int);
        }
        let mut root: i128 = fx_div(h - sqrtd, a);
        if !t.surrounds(root) {
            root = fx_div(h + sqrtd, a);
            if !t.surrounds(root) {
                return None;
            }
        }
        let point: Point3 = ray.at(root);
        let outward: Vec3 = point.sub(&self.center).div_fx(self.radius);
        let lim: i128 = 2 * SCALE;
        if outward.x > lim || outward.x < -lim || outward.y > lim || outward.y < -lim
            || outward.z > lim || outward.z < -lim {
            // The grid was too coarse to produce a unit-length normal here.
            return None;
        }
        proof {
            lemma_sq_prod_bound(outward.x as int, 2 * SCALE as int);
            lemma_sq_prod_bound(outward.y as int, 2 * SCALE as int);
            lemma_sq_prod_bound(outward.z as int, 2 * SCALE as int);
        }
        if outward.length_squared() == 0 {
            // Degenerate normal: shorter than one grid step.
            return None;
        }
        proof {
            lemma_prod_bound(ray.dir.x as int, outward.x as int, DIR_LIM as int, 2 * SCALE as int);
            lemma_prod_bound(ray.dir.y as int, outward.y as int, DIR_LIM as int, 2 * SCALE as int);
            lemma_prod_bound(ray.dir.z as int, outward.z as int, DIR_LIM as int, 2 * SCALE as int);
        }
        let front_face: bool = ray.direction().dot(&outward) < 0;
        let normal: Vec3 = if front_face {
            outward
        } else {
            proof {
                lemma_vdot_self_nonneg(view3(outward));
            }
            outward.neg()
        };
        proof {
            lemma_neg_preserves_len2(view3(outward));
        }
        Some(Hit { t: root, point, normal, front_face, material: self.material })
    }
}

/// The view a scene query reports: parameter, point, normal, front-face
/// flag and the struck material.
pub open spec fn hit_view(r: Option<Hit>) -> Option<(int, (int, int, int), (int, int, int), bool, Material)> {
    match r {
        None => None,
        Some(h) => Some((h.t as int, view3(h.point), view3(h.normal), h.front_face, h.material)),
    }
}

/// The scan state after the members before index `i` have been tested:
/// `closest` is the shrinking upper bound and `best` the hit that set it.
pub open spec fn world_hit_from(
    objs: Seq<Sphere>,
    i: int,
    rorig: (int, int, int),
    rdir: (int, int, int),
    tmin: int,
    closest: int,
    best: Option<(int, (int, int, int), (int, int, int), bool, Material)>,
) -> Option<(int, (int, int, int), (int, int, int), bool, Material)>
    decreases objs.len() - i,
{
    if i < 0 || i >= objs.len() {
        best
    } else {
        match sphere_hit_s(objs[i], rorig, rdir, tmin, closest) {
            None => world_hit_from(objs, i + 1, rorig, rdir, tmin, closest, best),
            Some(ht) => world_hit_from(
                objs,
                i + 1,
                rorig,
                rdir,
                tmin,
                ht.0,
                Some((ht.0, ht.1, ht.2, ht.3, objs[i].material)),
            ),
        }
    }
}

/// The nearest hit across the whole scene within `(tmin, tmax)`.
pub open spec fn world_hit_s(
    objs: Seq<Sphere>,
    rorig: (int, int, int),
    rdir: (int, int, int),
    tmin: int,
    tmax: int,
) -> Option<(int, (int, int, int), (int, int, int), bool, Material)> {
    world_hit_from(objs, 0, rorig, rdir, tmin, tmax, None)
}

/// The scene: an insertion-ordered collection of spheres.
pub struct World {
    pub objects: Vec<Sphere>,
}

/// Every member of the scene is well formed.
pub open spec fn world_wf(w: World) -> bool {
    forall|i: int| 0 <= i < w.objects@.len() ==> sphere_wf(#[trigger] w.objects@[i])
}

impl World {
    /// An empty scene.
    pub fn new() -> (r: Self)
        ensures
            r.objects@.len() == 0,
            world_wf(r),
    {
        World { objects: Vec::new() }
    }

    /// Append an object to the scene.
    pub fn add(&mut self, object: Sphere)
        requires
            sphere_wf(object),
        ensures
            final(self).objects@ == old(self).objects@.push(object),
            world_wf(*old(self)) ==> world_wf(*final(self)),
    {
        self.objects.push(object);
        proof {
            if world_wf(*old(self)) {
                assert forall|i: int| 0 <= i < self.objects@.len() implies sphere_wf(
                    #[trigger] self.objects@[i],
                ) by {
                    if i < old(self).objects@.len() {
                        assert(self.objects@[i] == old(self).objects@[i]);
                    }
                }
            }
        }
    }

    /// The nearest hit across all members, found by a single pass that
    /// keeps a shrinking upper bound; exactly as `world_hit_s` reports it.
    pub fn hit(&self, ray: &Ray, t: Interval) -> (r: Option<Hit>)
        requires
            world_wf(*self),
            ray_wf(*ray),
            0 < t.min,
            t.max <= T_FAR,
        ensures
            hit_view(r) == world_hit_s(self.objects@, view3(ray.orig), view3(ray.dir), t.min as int, t.max as int),
            ({
                match r {
                    None => true,
                    Some(h) => {
                        &&& t.min < h.t && h.t < t.max
                        &&& view3(h.point) == ray_at_s(view3(ray.orig), view3(ray.dir), h.t as int)
                        &&& hit_ok(h)
                    },
                }
            }),
    {
        let mut found: Option<Hit> = None;
        let mut closest: i128 = t.max;
        let mut idx: usize = 0;
        while idx < self.objects.len()
            invariant
                world_wf(*self),
                ray_wf(*ray),
                0 < t.min,
                t.max <= T_FAR,
                idx <= self.objects.len(),
                closest <= t.max,
                world_hit_from(
                    self.objects@,
                    idx as int,
                    view3(ray.orig),
                    view3(ray.dir),
                    t.min as int,
                    closest as int,
                    hit_view(found),
                ) == world_hit_s(
                    self.objects@,
                    view3(ray.orig),
                    view3(ray.dir),
                    t.min as int,
                    t.max as int,
                ),
                ({
                    match found {
                        None => closest == t.max,
                        Some(h) => {
                            &&& closest == h.t
                            &&& t.min < h.t && h.t < t.max
                            &&& view3(h.point) == ray_at_s(view3(ray.orig), view3(ray.dir), h.t as int)
                            &&& hit_ok(h)
                        },
                    }
                }),
            decreases self.objects.len() - idx,
        {
            let obj: &Sphere = &self.objects[idx];
            if let Some(new) = obj.hit(ray, Interval::new(t.min, closest)) {
                closest = new.t;
                found = Some(new);
            }
            idx = idx + 1;
        }
        found
    }
}

/// Multiplying by one (or minus one) on the grid is exact.
proof fn lemma_fx_mul_scale(x: int)
    ensures
        fx_mul_s(SCALE as int, x) == x,
        fx_mul_s(-(SCALE as int), x) == -x,
        fx_mul_s(x, SCALE as int) == x,
        fx_mul_s(x, -(SCALE as int)) == -x,
{
    let s = SCALE as int;
    vstd::arithmetic::div_mod::lemma_div_by_multiple(iabs(x), s);
    assert(iabs(x) * s == s * iabs(x)) by (nonlinear_arith);
    assert((s * iabs(x)) / s == iabs(x)) by {
        vstd::arithmetic::div_mod::lemma_div_multiples_vanish(iabs(x), s);
    };
}

/// Dividing a multiple of `b` by `b` on the grid is exact.
proof fn lemma_fx_div_self(r: int)
    requires
        0 < r,
    ensures
        fx_div_s(r, r) == SCALE as int,
        fx_div_s(-r, r) == -(SCALE as int),
        fx_div_s(0, r) == 0,
{
    let s = SCALE as int;
    vstd::arithmetic::div_mod::lemma_div_multiples_vanish(s, r);
    assert(r * s == s * r) by (nonlinear_arith);
    vstd::arithmetic::div_mod::lemma_div_of0(r);
}

/// Dividing by the scale (one) on the grid is exact.
proof fn lemma_fx_div_scale(x: int)
    ensures
        fx_div_s(x, SCALE as int) == x,
{
    let s = SCALE as int;
    vstd::arithmetic::div_mod::lemma_div_by_multiple(iabs(x), s);
}

/// The fixed-point square of a multiple of one hundred grid steps is
/// exact, and its fixed-point square root undoes it.
proof fn lemma_fx_square_exact(r: int)
    requires
        0 < r,
        r % 100 == 0,
    ensures
        fx_mul_s(r, r) * (SCALE as int) == r * r,
        fx_mul_s(-r, -r) * (SCALE as int) == r * r,
        fx_sqrt_s(fx_mul_s(r, r)) == r,
{
    let s = SCALE as int;
    let m = r / 100;
    vstd::arithmetic::div_mod::lemma_fundamental_div_mod(r, 100);
    assert(r == 100 * m);
    assert(r * r == s * (m * m)) by (nonlinear_arith)
        requires
            r == 100 * m,
            s == 10_000,
    ;
    assert((s * (m * m)) / s == m * m) by {
        vstd::arithmetic::div_mod::lemma_div_multiples_vanish(m * m, s);
    };
    assert(iabs(r) * iabs(r) == r * r);
    assert(fx_mul_s(r, r) == m * m);
    assert(fx_mul_s(r, r) * s == (m * m) * s);
    assert((m * m) * s == s * (m * m)) by (nonlinear_arith);
    assert(fx_mul_s(r, r) * s == r * r);
    assert(r * r <= r * r);
    assert(r * r < (r + 1) * (r + 1)) by (nonlinear_arith)
        requires
            0 < r,
    ;
    crate::fx::lemma_sqrt_floor_unique(r * r, r);
    assert(fx_sqrt_s(fx_mul_s(r, r)) == crate::fx::sqrt_floor((m * m) * s));
    assert((m * m) * s == r * r);
}

/// A ray fired from outside a sphere straight at its center strikes the
/// front face at parameter `t` equal to the center distance minus the
/// radius, and the reported normal points away from the center, back
/// along the ray.  Stated for the grid-exact family: the ray runs along
/// the `z` axis with a unit direction, and the radius and distance sit on
/// multiples of one hundred grid steps, where no truncation occurs.
pub proof fn lemma_aimed_ray_hits_center_front(sph: Sphere, k: int, tmin: int, tmax: int)
    ensures
        ({
            let s = SCALE as int;
            let r = sph.radius as int;
            let c = view3(sph.center);
            let orig = (c.0, c.1, c.2 + k);
            let tw = sphere_hit_s(sph, orig, (0, 0, -s), tmin, tmax);
            (0 < r && r % 100 == 0 && k % 100 == 0 && r < k && 0 < tmin && tmin < k - r && k - r
                < tmax) ==> {
                &&& tw is Some
                &&& (tw->0).0 == k - r
                &&& (tw->0).3 == true
                &&& (tw->0).2 == (0int, 0int, s)
                &&& (tw->0).1 == (c.0, c.1, c.2 + r)
            }
        }),
{
    let s = SCALE as int;
    let r = sph.radius as int;
    let c = view3(sph.center);
    let orig = (c.0, c.1, c.2 + k);
    if 0 < r && r % 100 == 0 && k % 100 == 0 && r < k && 0 < tmin && tmin < k - r && k - r
        < tmax {
        assert(10_000int * 10_000int == 100_000_000int);
        assert(100_000_000int / 10_000int == 10_000int);
        lemma_fx_mul_scale(0);
        lemma_fx_mul_scale(-k);
        lemma_fx_mul_scale(r);
        lemma_fx_mul_scale(k - r);
        lemma_fx_mul_scale(-s);
        lemma_fx_square_exact(r);
        lemma_fx_square_exact(k);
        let oc = vsub_s(c, orig);
        assert(oc == (0int, 0int, -k));
        let a = vdot_s((0int, 0int, -s), (0int, 0int, -s));
        assert(fx_mul_s(0, 0) == 0) by {
            vstd::arithmetic::div_mod::lemma_div_of0(s);
        };
        assert(fx_mul_s(-s, -s) == s);
        assert(a == s);
        let h = vdot_s((0int, 0int, -s), oc);
        assert(fx_mul_s(-s, -k) == k);
        assert(h == k);
        let mr = r / 100;
        let mk = k / 100;
        assert(fx_mul_s(r, r) == mr * mr && fx_mul_s(-k, -k) == mk * mk) by {
            assert(fx_mul_s(r, r) * s == r * r);
            assert(fx_mul_s(-k, -k) * s == k * k);
            assert(r == 100 * mr && k == 100 * mk) by {
                vstd::arithmetic::div_mod::lemma_fundamental_div_mod(r, 100);
                vstd::arithmetic::div_mod::lemma_fundamental_div_mod(k, 100);
            };
            assert(r * r == (mr * mr) * s && k * k == (mk * mk) * s) by (nonlinear_arith)
                requires
                    r == 100 * mr,
                    k == 100 * mk,
                    s == 10_000,
            ;
            vstd::arithmetic::mul::lemma_mul_equality_converse(s, fx_mul_s(r, r), mr * mr);
            vstd::arithmetic::mul::lemma_mul_equality_converse(s, fx_mul_s(-k, -k), mk * mk);
        };
        let cterm = vdot_s(oc, oc) - fx_mul_s(r, r);
        assert(vdot_s(oc, oc) == mk * mk);
        assert(cterm == mk * mk - mr * mr);
        let disc = fx_mul_s(h, h) - fx_mul_s(a, cterm);
        assert(fx_mul_s(k, k) == mk * mk);
        assert(fx_mul_s(s, cterm) == cterm) by {
            lemma_fx_mul_scale(cterm);
        };
        assert(disc == mr * mr);
        assert(0 <= disc) by {
            vstd::arithmetic::mul::lemma_mul_nonnegative(mr, mr);
        };
        let sqrtd = fx_sqrt_s(disc);
        assert(sqrtd == r) by {
            assert(fx_mul_s(r, r) == mr * mr);
            lemma_fx_square_exact(r);
        };
        let near = fx_div_s(h - sqrtd, a);
        assert(near == k - r) by {
            lemma_fx_div_scale(k - r);
        };
        assert(tmin < near && near < tmax);
        let point = ray_at_s(orig, (0int, 0int, -s), near);
        assert(fx_mul_s(-s, k - r) == -(k - r));
        assert(point == (c.0, c.1, c.2 + r));
        let outward = vdiv_s(vsub_s(point, c), r);
        assert(vsub_s(point, c) == (0int, 0int, r));
        assert(outward == (0int, 0int, s)) by {
            lemma_fx_div_self(r);
        };
        assert(bounded3(outward, 2 * s));
        assert(vdot_s(outward, outward) == s) by {
            lemma_fx_mul_scale(s);
            assert(fx_mul_s(s, s) == s);
        };
        assert(vdot_s((0int, 0int, -s), outward) == -s) by {
            lemma_fx_mul_scale(s);
        };
    }
}

/// A ray starting at a sphere's center (inside it) and leaving along the
/// `z` axis strikes the back face: `front_face` is false and the normal is
/// flipped to oppose the outgoing ray.  Stated for the grid-exact family
/// where the radius is a multiple of one hundred grid steps.
pub proof fn lemma_inside_ray_hits_back_face(sph: Sphere, tmin: int, tmax: int)
    ensures
        ({
            let s = SCALE as int;
            let r = sph.radius as int;
            let c = view3(sph.center);
            let tw = sphere_hit_s(sph, c, (0, 0, -s), tmin, tmax);
            (0 < r && r % 100 == 0 && 0 < tmin && tmin < r && r < tmax) ==> {
                &&& tw is Some
                &&& (tw->0).0 == r
                &&& (tw->0).3 == false
                &&& (tw->0).2 == (0int, 0int, s)
            }
        }),
{
    let s = SCALE as int;
    let r = sph.radius as int;
    let c = view3(sph.center);
    if 0 < r && r % 100 == 0 && 0 < tmin && tmin < r && r < tmax {
        assert(10_000int * 10_000int == 100_000_000int);
        assert(100_000_000int / 10_000int == 10_000int);
        lemma_fx_mul_scale(0);
        lemma_fx_mul_scale(r);
        lemma_fx_mul_scale(-s);
        lemma_fx_square_exact(r);
        let oc = vsub_s(c, c);
        assert(oc == (0int, 0int, 0int));
        assert(fx_mul_s(0, 0) == 0) by {
            vstd::arithmetic::div_mod::lemma_div_of0(s);
        };
        let a = vdot_s((0int, 0int, -s), (0int, 0int, -s));
        assert(fx_mul_s(-s, -s) == s);
        assert(a == s);
        let h = vdot_s((0int, 0int, -s), oc);
        assert(fx_mul_s(-s, 0) == 0);
        assert(h == 0);
        let mr = r / 100;
        assert(fx_mul_s(r, r) == mr * mr) by {
            assert(fx_mul_s(r, r) * s == r * r);
            assert(r == 100 * mr) by {
                vstd::arithmetic::div_mod::lemma_fundamental_div_mod(r, 100);
            };
            assert(r * r == (mr * mr) * s) by (nonlinear_arith)
                requires
                    r == 100 * mr,
                    s == 10_000,
            ;
            vstd::arithmetic::mul::lemma_mul_equality_converse(s, fx_mul_s(r, r), mr * mr);
        };
        let cterm = vdot_s(oc, oc) - fx_mul_s(r, r);
        assert(cterm == -(mr * mr));
        let disc = fx_mul_s(h, h) - fx_mul_s(a, cterm);
        assert(fx_mul_s(0, 0) == 0);
        assert(fx_mul_s(s, cterm) == cterm) by {
            lemma_fx_mul_scale(cterm);
        };
        assert(disc == mr * mr);
        assert(0 <= disc) by {
            vstd::arithmetic::mul::lemma_mul_nonnegative(mr, mr);
        };
        let sqrtd = fx_sqrt_s(disc);
        assert(sqrtd == r) by {
            lemma_fx_square_exact(r);
        };
        let near = fx_div_s(0 - sqrtd, a);
        assert(near == -r) by {
            lemma_fx_div_scale(-r);
        };
        assert(!(tmin < near));
        let far = fx_div_s(0 + sqrtd, a);
        assert(far == r) by {
            lemma_fx_div_scale(r);
        };
        assert(tmin < far && far < tmax);
        let point = ray_at_s(c, (0int, 0int, -s), far);
        assert(fx_mul_s(-s, r) == -r);
        assert(point == (c.0, c.1, c.2 - r));
        let outward = vdiv_s(vsub_s(point, c), r);
        assert(vsub_s(point, c) == (0int, 0int, -r));
        assert(outward == (0int, 0int, -s)) by {
            lemma_fx_div_self(r);
        };
        assert(bounded3(outward, 2 * s));
        assert(vdot_s(outward, outward) == s) by {
            assert(fx_mul_s(-s, -s) == s);
        };
        assert(vdot_s((0int, 0int, -s), outward) == s);
        assert(!(vdot_s((0int, 0int, -s), outward) < 0));
        assert(vneg_s(outward) == (0int, 0int, s));
    }
}

/// The record the scan reports when sphere `n` wins: its own hit record
/// against the full interval, tagged with its material.
pub open spec fn sphere_rec_at(
    objs: Seq<Sphere>,
    n: int,
    rorig: (int, int, int),
    rdir: (int, int, int),
    tmin: int,
    tmax: int,
) -> (int, (int, int, int), (int, int, int), bool, Material) {
    let ht = sphere_hit_s(objs[n], rorig, rdir, tmin, tmax)->0;
    (ht.0, ht.1, ht.2, ht.3, objs[n].material)
}

/// The grid form of "non-overlapping spheres along the ray's path": every
/// member, queried alone, reports a hit at its own parameter `ts[n]`, and
/// that report does not depend on the far bound — any query reaching past
/// `ts[n]` returns the same record, and any query stopping short of it
/// returns nothing.
pub open spec fn separated_hits(
    objs: Seq<Sphere>,
    rorig: (int, int, int),
    rdir: (int, int, int),
    tmin: int,
    tmax: int,
    ts: Seq<int>,
) -> bool {
    &&& ts.len() == objs.len()
    &&& forall|n: int| 0 <= n < objs.len() ==> tmin < #[trigger] ts[n] && ts[n] < tmax
    &&& forall|n: int|
        0 <= n < objs.len() ==> (#[trigger] sphere_hit_s(objs[n], rorig, rdir, tmin, tmax))
            is Some && (sphere_hit_s(objs[n], rorig, rdir, tmin, tmax)->0).0 == ts[n]
    &&& forall|n: int, m: int|
        0 <= n < objs.len() && ts[n] < m && m <= tmax ==> #[trigger] sphere_hit_s(
            objs[n],
            rorig,
            rdir,
            tmin,
            m,
        ) == sphere_hit_s(objs[n], rorig, rdir, tmin, tmax)
    &&& forall|n: int, m: int|
        0 <= n < objs.len() && tmin < m && m <= ts[n] ==> (#[trigger] sphere_hit_s(
            objs[n],
            rorig,
            rdir,
            tmin,
            m,
        )) is None
}

/// The scan from index `i` onward, entered with the best record among the
/// members before `i`, returns the record of a member nearest overall.
proof fn lemma_world_scan_min(
    objs: Seq<Sphere>,
    rorig: (int, int, int),
    rdir: (int, int, int),
    tmin: int,
    tmax: int,
    ts: Seq<int>,
    i: int,
    closest: int,
    best: Option<(int, (int, int, int), (int, int, int), bool, Material)>,
)
    requires
        separated_hits(objs, rorig, rdir, tmin, tmax, ts),
        0 < objs.len(),
        0 <= i <= objs.len(),
        tmin < closest <= tmax,
        match best {
            None => i == 0 && closest == tmax,
            Some(b) => exists|m: int|
                0 <= m < i && b == sphere_rec_at(objs, m, rorig, rdir, tmin, tmax) && closest
                    == ts[m] && (forall|n: int| 0 <= n < i ==> ts[m] <= #[trigger] ts[n]),
        },
    ensures
        ({
            let res = world_hit_from(objs, i, rorig, rdir, tmin, closest, best);
            exists|m: int|
                0 <= m < objs.len() && res == Some(sphere_rec_at(objs, m, rorig, rdir, tmin, tmax))
                    && (forall|n: int| 0 <= n < objs.len() ==> ts[m] <= #[trigger] ts[n])
        }),
    decreases objs.len() - i,
{
    if i == objs.len() {
        match best {
            None => {
                assert(false);
            },
            Some(b) => {
                let m = choose|m: int|
                    0 <= m < i && b == sphere_rec_at(objs, m, rorig, rdir, tmin, tmax) && closest
                        == ts[m] && (forall|n: int| 0 <= n < i ==> ts[m] <= #[trigger] ts[n]);
                assert(world_hit_from(objs, i, rorig, rdir, tmin, closest, best) == best);
                assert(0 <= m < objs.len() && best == Some(
                    sphere_rec_at(objs, m, rorig, rdir, tmin, tmax),
                ) && (forall|n: int| 0 <= n < objs.len() ==> ts[m] <= #[trigger] ts[n]));
            },
        }
    } else {
        let e = sphere_hit_s(objs[i], rorig, rdir, tmin, closest);
        if ts[i] < closest {
            assert(e == sphere_hit_s(objs[i], rorig, rdir, tmin, tmax));
            let newbest = Some(sphere_rec_at(objs, i, rorig, rdir, tmin, tmax));
            assert(world_hit_from(objs, i, rorig, rdir, tmin, closest, best) == world_hit_from(
                objs,
                i + 1,
                rorig,
                rdir,
                tmin,
                ts[i],
                newbest,
            ));
            assert(forall|n: int| 0 <= n < i + 1 ==> ts[i] <= #[trigger] ts[n]) by {
                if best is Some {
                    let m = choose|m: int|
                        0 <= m < i && best->0 == sphere_rec_at(objs, m, rorig, rdir, tmin, tmax)
                            && closest == ts[m] && (forall|n: int|
                            0 <= n < i ==> ts[m] <= #[trigger] ts[n]);
                    assert(forall|n: int| 0 <= n < i ==> ts[m] <= #[trigger] ts[n]);
                }
            };
            lemma_world_scan_min(objs, rorig, rdir, tmin, tmax, ts, i + 1, ts[i], newbest);
        } else {
            assert(tmin < closest <= ts[i]);
            assert(e is None);
            assert(world_hit_from(objs, i, rorig, rdir, tmin, closest, best) == world_hit_from(
                objs,
                i + 1,
                rorig,
                rdir,
                tmin,
                closest,
                best,
            ));
            if best is Some {
                let m = choose|m: int|
                    0 <= m < i && best->0 == sphere_rec_at(objs, m, rorig, rdir, tmin, tmax)
                        && closest == ts[m] && (forall|n: int|
                        0 <= n < i ==> ts[m] <= #[trigger] ts[n]);
                assert(ts[m] <= ts[i]);
                assert(forall|n: int| 0 <= n < i + 1 ==> ts[m] <= #[trigger] ts[n]);
            } else {
                assert(closest == tmax && ts[i] < tmax);
                assert(false);
            }
            lemma_world_scan_min(objs, rorig, rdir, tmin, tmax, ts, i + 1, closest, best);
        }
    }
}

/// Scene aggregation is nearest-hit selection: with separated members along
/// the ray's path, the scan returns the record of a member whose parameter
/// is least — whatever order the members were inserted in, since the claim
/// depends only on the parameters, not on positions in the sequence.
pub proof fn lemma_world_hit_nearest(
    objs: Seq<Sphere>,
    rorig: (int, int, int),
    rdir: (int, int, int),
    tmin: int,
    tmax: int,
    ts: Seq<int>,
)
    requires
        separated_hits(objs, rorig, rdir, tmin, tmax, ts),
        0 < objs.len(),
        tmin < tmax,
    ensures
        ({
            let res = world_hit_s(objs, rorig, rdir, tmin, tmax);
            exists|m: int|
                0 <= m < objs.len() && res == Some(sphere_rec_at(objs, m, rorig, rdir, tmin, tmax))
                    && (forall|n: int| 0 <= n < objs.len() ==> ts[m] <= #[trigger] ts[n])
        }),
{
    lemma_world_scan_min(objs, rorig, rdir, tmin, tmax, ts, 0, tmax, None);
}

/// `|x| <= m` gives `|x| * |x| <= m * m`.
proof fn lemma_sq_prod_bound(x: int, m: int)
    requires
        iabs(x) <= m,
    ensures
        iabs(x) * iabs(x) <= m * m,
{
    lemma_mul_upper_bound(iabs(x), m, iabs(x), m);
}

/// `|x| <= mx` and `|y| <= my` give `|x| * |y| <= mx * my`.
proof fn lemma_prod_bound(x: int, y: int, mx: int, my: int)
    requires
        iabs(x) <= mx,
        iabs(y) <= my,
    ensures
        iabs(x) * iabs(y) <= mx * my,
{
    lemma_mul_upper_bound(iabs(x), mx, iabs(y), my);
}

/// The square root of a bounded discriminant is at most `5e18`.
proof fn lemma_sqrt_bound(d: int, s: int)
    requires
        0 <= d,
        d <= 2_000_000_000_000_000_000_000_000_000_000_000int,
        0 <= s,
        s * s <= d * (SCALE as int),
    ensures
        s <= 5_000_000_000_000_000_000int,
{
    lemma_mul_inequality(d, 2_000_000_000_000_000_000_000_000_000_000_000int, SCALE as int);
    if s > 5_000_000_000_000_000_000int {
        assert(5_000_000_000_000_000_000int * 5_000_000_000_000_000_000int < s * s)
            by (nonlinear_arith)
            requires
                5_000_000_000_000_000_000int < s,
        ;
        assert(false);
    }
}

/// Negation keeps the squared length.
proof fn lemma_neg_preserves_len2(a: (int, int, int))
    ensures
        vdot_s(vneg_s(a), vneg_s(a)) == vdot_s(a, a),
{
    assert(fx_mul_s(-a.0, -a.0) == fx_mul_s(a.0, a.0));
    assert(fx_mul_s(-a.1, -a.1) == fx_mul_s(a.1, a.1));
    assert(fx_mul_s(-a.2, -a.2) == fx_mul_s(a.2, a.2));
}

} // verus!
