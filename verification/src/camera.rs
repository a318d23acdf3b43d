//! The camera: viewport derivation, per-pixel ray generation, the
//! recursive integrator and the render loop.
//!
//! A render is proved to produce exactly the pixel sequence of the
//! specification twin `render_s`, a pure function of the image dimensions,
//! the sample count, the recursion depth, the scene and the sampler seed —
//! so two renders of the same configuration are equal by construction.

use vstd::prelude::*;

verus! {

use crate::fx::SCALE;
use crate::fx::iabs;
use crate::fx::fx_mul_s;
use crate::fx::fx_div_s;
use crate::fx::fx_mul;
use crate::fx::fx_div;
use crate::fx::lemma_fx_mul_bound;
use crate::vec3::Vec3;
use crate::vec3::Point3;
use crate::vec3::Color;
use crate::vec3::view3;
use crate::vec3::bounded3;
use crate::vec3::vadd_s;
use crate::vec3::vsub_s;
use crate::vec3::vscale_s;
use crate::vec3::vdiv_s;
use crate::vec3::vdot_s;
use crate::vec3::vunit_s;
use crate::vec3::vcmul_s;
use crate::vec3::lemma_vdot_bound;
use crate::vec3::lemma_fx_sq_nonneg;
use crate::interval::Interval;
use crate::ray::Ray;
use crate::ray::Sphere;
use crate::ray::World;
use crate::ray::world_wf;
use crate::ray::world_hit_s;
use crate::ray::lemma_point_growth;
use crate::ray::DIR_LIM;
use crate::ray::ORIGIN_LIM;
use crate::ray::BOUNCE_STEP;
use crate::ray::T_ACNE;
use crate::ray::T_FAR;
use crate::material::scatter_s;
use crate::sampler::Sampler;
use crate::util::sample_square;
use crate::util::sample_square_s;
use crate::util::rand_vec_unit;
use crate::util::rand_vec_unit_s;
use crate::util::UNIT_TRIES;
use crate::util::HALF;
use crate::image::Image;
use vstd::arithmetic::mul::lemma_mul_upper_bound;
use vstd::arithmetic::mul::lemma_mul_inequality;
use vstd::arithmetic::div_mod::lemma_fundamental_div_mod;
use vstd::arithmetic::div_mod::lemma_div_is_ordered;
use vstd::arithmetic::div_mod::lemma_div_pos_is_pos;
use vstd::arithmetic::div_mod::lemma_div_by_multiple;
use vstd::arithmetic::div_mod::lemma_div_of0;
use vstd::assert_seqs_equal;

/// The fixed focal length: one world unit.
pub const FOCAL_LEN: i128 = 10_000;

/// Two on the grid, for halving the viewport extents.
pub const TWO_FX: i128 = 20_000;

/// The largest pixel count accepted on each image axis.
pub const DIM_MAX: u32 = 10_000;

/// The deepest recursion the integrator accepts.
pub const DEPTH_MAX: u32 = 50;

/// Accepted image dimensions: both axes in range, width at most one
/// hundred times height (so the viewport fits the grid).
pub open spec fn dims_wf(w: int, h: int) -> bool {
    &&& 1 <= w && w <= DIM_MAX as int
    &&& 1 <= h && h <= DIM_MAX as int
    &&& w <= 100 * h
}

/// The width of one axis in grid units.
pub open spec fn px_s(n: int) -> int {
    n * (SCALE as int)
}

/// The viewport height: `2 * tan(45 degrees) * focal`, which is exactly two.
pub open spec fn vh_s() -> int {
    fx_mul_s(TWO_FX as int, fx_mul_s(SCALE as int, FOCAL_LEN as int))
}

/// The viewport width: the height times the pixel aspect ratio.
pub open spec fn vw_s(w: int, h: int) -> int {
    fx_mul_s(vh_s(), fx_div_s(px_s(w), px_s(h)))
}

/// The world-space step from one pixel column to the next.
pub open spec fn du_s(w: int, h: int) -> (int, int, int) {
    vdiv_s((vw_s(w, h), 0, 0), px_s(w))
}

/// The world-space step from one pixel row to the next.
pub open spec fn dv_s(w: int, h: int) -> (int, int, int) {
    vdiv_s((0, -vh_s(), 0), px_s(h))
}

/// The sample center of pixel (0, 0): the viewport's upper-left corner
/// pushed half a pixel step inward.
pub open spec fn pixel_start_s(w: int, h: int) -> (int, int, int) {
    let upper_left = vsub_s(
        vsub_s(
            vsub_s((0, 0, 0), (0, 0, FOCAL_LEN as int)),
            vdiv_s((vw_s(w, h), 0, 0), TWO_FX as int),
        ),
        vdiv_s((0, -vh_s(), 0), TWO_FX as int),
    );
    vadd_s(upper_left, vscale_s(vadd_s(du_s(w, h), dv_s(w, h)), HALF as int))
}

/// The pixel-to-world mapping, computed once from the image dimensions.
pub struct Viewport {
    pub center: Point3,
    pub pixel_delta_u: Vec3,
    pub pixel_delta_v: Vec3,
    pub pixel_start: Point3,
}

/// The viewport holds exactly the derived quantities for `w` by `h` pixels
/// around the origin.
pub open spec fn viewport_wf(v: Viewport, w: int, h: int) -> bool {
    &&& v.center.x == 0 && v.center.y == 0 && v.center.z == 0
    &&& view3(v.pixel_delta_u) == du_s(w, h)
    &&& view3(v.pixel_delta_v) == dv_s(w, h)
    &&& view3(v.pixel_start) == pixel_start_s(w, h)
}

/// Derived bounds on the viewport quantities for accepted dimensions.
pub proof fn lemma_viewport_bounds(w: int, h: int)
    requires
        dims_wf(w, h),
    ensures
        vh_s() == 2 * SCALE as int,
        0 <= vw_s(w, h) && vw_s(w, h) <= 2_000_000int,
        du_s(w, h).1 == 0 && du_s(w, h).2 == 0,
        iabs(du_s(w, h).0) <= (vw_s(w, h) * (SCALE as int)) / px_s(w),
        (vw_s(w, h) * (SCALE as int)) / px_s(w) <= 2_000_000int,
        dv_s(w, h).0 == 0 && dv_s(w, h).2 == 0,
        iabs(dv_s(w, h).1) <= (vh_s() * (SCALE as int)) / px_s(h),
        (vh_s() * (SCALE as int)) / px_s(h) <= 20_000int,
        bounded3(pixel_start_s(w, h), 3_100_000int),
        pixel_start_s(w, h).2 == -(SCALE as int),
{
    let s = SCALE as int;
    let wfx = px_s(w);
    let hfx = px_s(h);
    assert(10_000int * 10_000int == 100_000_000int);
    assert(100_000_000int / 10_000int == 10_000int);
    assert(20_000int * 10_000int == 200_000_000int);
    assert(200_000_000int / 10_000int == 20_000int);
    assert(200_000_000int / 20_000int == 10_000int);
    assert(fx_mul_s(SCALE as int, FOCAL_LEN as int) == SCALE as int);
    assert(vh_s() == 2 * s);
    // The aspect ratio is at most one hundred.
    let ratio = fx_div_s(wfx, hfx);
    assert(0 <= ratio && ratio <= 100 * s) by {
        lemma_div_pos_is_pos(wfx * s, hfx);
        lemma_mul_inequality(wfx, 100 * hfx, s);
        assert((100 * hfx) * s == (100 * s) * hfx) by (nonlinear_arith);
        lemma_div_is_ordered(wfx * s, (100 * s) * hfx, hfx);
        lemma_div_by_multiple(100 * s, hfx);
    };
    // The viewport width is twice the ratio, exactly.
    assert(vw_s(w, h) == 2 * ratio) by {
        assert(iabs(2 * s) * iabs(ratio) == (2 * ratio) * s) by (nonlinear_arith)
            requires
                0 <= ratio,
                0 <= s,
        ;
        lemma_div_by_multiple(2 * ratio, s);
    };
    let vw = vw_s(w, h);
    // Pixel steps.
    assert(du_s(w, h).1 == 0 && du_s(w, h).2 == 0) by {
        lemma_div_of0(wfx);
    };
    assert(iabs(du_s(w, h).0) == (vw * s) / wfx) by {
        lemma_div_pos_is_pos(vw * s, wfx);
    };
    assert((vw * s) / wfx <= vw) by {
        lemma_mul_inequality(s, wfx, vw);
        assert(vw * wfx == wfx * vw) by (nonlinear_arith);
        lemma_div_is_ordered(vw * s, wfx * vw, wfx);
        lemma_div_by_multiple(vw, wfx);
        assert(vw * wfx == wfx * vw) by (nonlinear_arith);
    };
    assert(dv_s(w, h).0 == 0 && dv_s(w, h).2 == 0) by {
        lemma_div_of0(hfx);
    };
    assert(iabs(dv_s(w, h).1) == (vh_s() * s) / hfx) by {
        lemma_div_pos_is_pos(vh_s() * s, hfx);
    };
    assert((vh_s() * s) / hfx <= 2 * s) by {
        lemma_mul_inequality(s, hfx, 2 * s);
        assert((2 * s) * hfx == hfx * (2 * s)) by (nonlinear_arith);
        lemma_div_is_ordered((2 * s) * s, hfx * (2 * s), hfx);
        lemma_div_by_multiple(2 * s, hfx);
    };
    // The pixel start point.
    let halfu = vdiv_s((vw, 0, 0), TWO_FX as int);
    let halfv = vdiv_s((0, -vh_s(), 0), TWO_FX as int);
    assert(iabs(halfu.0) <= vw) by {
        lemma_div_pos_is_pos(vw * s, TWO_FX as int);
        lemma_mul_inequality(s, TWO_FX as int, vw);
        assert(vw * (TWO_FX as int) == (TWO_FX as int) * vw) by (nonlinear_arith);
        lemma_div_is_ordered(vw * s, (TWO_FX as int) * vw, TWO_FX as int);
        lemma_div_by_multiple(vw, TWO_FX as int);
    };
    assert(halfu.1 == 0 && halfu.2 == 0) by {
        lemma_div_of0(TWO_FX as int);
    };
    assert(iabs(halfv.1) == (vh_s() * s) / (TWO_FX as int)) by {
        lemma_div_pos_is_pos(vh_s() * s, TWO_FX as int);
    };
    assert((vh_s() * s) / (TWO_FX as int) == s);
    assert(halfv.0 == 0 && halfv.2 == 0) by {
        lemma_div_of0(TWO_FX as int);
    };
    let du = du_s(w, h);
    let dv = dv_s(w, h);
    assert(iabs(fx_mul_s(du.0 + dv.0, HALF as int)) * s <= 2_000_000 * (HALF as int)) by {
        crate::fx::lemma_fx_mul_bound(du.0 + dv.0, HALF as int, 2_000_000int, HALF as int);
    };
    assert(iabs(fx_mul_s(du.1 + dv.1, HALF as int)) * s <= 20_000 * (HALF as int)) by {
        crate::fx::lemma_fx_mul_bound(du.1 + dv.1, HALF as int, 20_000int, HALF as int);
    };
    assert(fx_mul_s(du.2 + dv.2, HALF as int) == 0);
}

impl Viewport {
    /// Derive the pixel-to-world mapping for a `width` by `height` image
    /// seen from the origin with the fixed 90 degree field of view (whose
    /// half-angle tangent is exactly one) and unit focal length.
    pub fn new(width: u32, height: u32, center: Vec3) -> (r: Self)
        requires
            dims_wf(width as int, height as int),
            center.x == 0 && center.y == 0 && center.z == 0,
        ensures
            viewport_wf(r, width as int, height as int),
    {
        proof {
            lemma_viewport_bounds(width as int, height as int);
            assert(10_000int * 10_000int == 100_000_000int);
            assert(20_000int * 10_000int == 200_000_000int);
        }
        let h_tan: i128 = fx_mul(SCALE, FOCAL_LEN);
        let viewport_height: i128 = fx_mul(TWO_FX, h_tan);
        let wfx: i128 = (width as i128) * SCALE;
        let hfx: i128 = (height as i128) * SCALE;
        let ratio: i128 = fx_div(wfx, hfx);
        proof {
            lemma_fx_mul_bound(viewport_height as int, ratio as int, TWO_FX as int, 1_000_000int);
            lemma_mul_upper_bound(iabs(viewport_height as int), TWO_FX as int, iabs(ratio as int), 1_000_000int);
        }
        let viewport_width: i128 = fx_mul(viewport_height, ratio);
        let viewport_u: Vec3 = Vec3::new(viewport_width, 0, 0);
        let viewport_v: Vec3 = Vec3::new(0, -viewport_height, 0);
        let pixel_delta_u: Vec3 = viewport_u.div_fx(wfx);
        let pixel_delta_v: Vec3 = viewport_v.div_fx(hfx);
        let focal: Vec3 = Vec3::new(0, 0, FOCAL_LEN);
        let viewport_upper_left: Vec3 = center
            .sub(&focal)
            .sub(&viewport_u.div_fx(TWO_FX))
            .sub(&viewport_v.div_fx(TWO_FX));
        let half_step: Vec3 = pixel_delta_u.add(&pixel_delta_v).scale(HALF);
        let pixel_start: Vec3 = viewport_upper_left.add(&half_step);
        Viewport { center, pixel_delta_u, pixel_delta_v, pixel_start }
    }
}

/// The ray for pixel `(i, j)` drawn from state `st`: the camera center
/// through the jittered sample point, with the state left behind.
#[verifier::opaque]
pub open spec fn get_ray_s(w: int, h: int, i: int, j: int, st: u64) -> (
    ((int, int, int), (int, int, int)),
    u64,
) {
    let off = sample_square_s(st);
    let su = i * (SCALE as int) + off.0.0;
    let sv = j * (SCALE as int) + off.0.1;
    let ps = vadd_s(
        vadd_s(pixel_start_s(w, h), vscale_s(du_s(w, h), su)),
        vscale_s(dv_s(w, h), sv),
    );
    (((0, 0, 0), vsub_s(ps, (0, 0, 0))), off.1)
}

/// A pixel step scaled by an offset within the axis stays within the
/// viewport extent.
proof fn lemma_delta_scale(dux: int, vv: int, dd: int, sc: int)
    requires
        0 <= vv,
        0 < dd,
        iabs(dux) <= (vv * (SCALE as int)) / dd,
        iabs(sc) <= dd,
    ensures
        iabs(fx_mul_s(dux, sc)) <= vv,
{
    let s = SCALE as int;
    vstd::arithmetic::mul::lemma_mul_nonnegative(vv, s);
    lemma_div_pos_is_pos(vv * s, dd);
    lemma_mul_upper_bound(iabs(dux), (vv * s) / dd, iabs(sc), dd);
    lemma_fundamental_div_mod(vv * s, dd);
    assert(((vv * s) / dd) * dd <= vv * s) by {
        assert(dd * ((vv * s) / dd) == ((vv * s) / dd) * dd) by (nonlinear_arith);
    };
    crate::fx::lemma_fx_mul_mag(dux, sc);
    lemma_mul_inequality(iabs(fx_mul_s(dux, sc)), vv, s);
}

/// The sky gradient: white at the horizon blending to blue overhead.
pub open spec fn sky_s(rdir: (int, int, int)) -> (int, int, int) {
    let u = vunit_s(rdir);
    let a = fx_mul_s(HALF as int, u.1 + SCALE as int);
    vadd_s(
        vscale_s((SCALE as int, SCALE as int, SCALE as int), (SCALE as int) - a),
        vscale_s((5_000, 7_000, 10_000), a),
    )
}

/// The radiance carried back along a ray, resolved recursively: black at
/// the depth limit, attenuated recursion on a scatter, a defensive diffuse
/// half-intensity bounce on absorption, the sky on a miss.
#[verifier::opaque]
pub open spec fn ray_color_s(
    rorig: (int, int, int),
    rdir: (int, int, int),
    depth: int,
    objs: Seq<Sphere>,
    st: u64,
) -> ((int, int, int), u64)
    decreases depth,
{
    if depth <= 0 {
        ((0, 0, 0), st)
    } else {
        match world_hit_s(objs, rorig, rdir, T_ACNE as int, T_FAR as int) {
            Some(ht) => {
                let sc = scatter_s(ht.4, rdir, ht.1, ht.2, ht.3, st);
                match sc.0 {
                    Some(rec) => {
                        let inner = ray_color_s(rec.0.0, rec.0.1, depth - 1, objs, sc.1);
                        (vcmul_s(rec.1, inner.0), inner.1)
                    },
                    None => {
                        let drawn = rand_vec_unit_s(sc.1, UNIT_TRIES as nat);
                        let cand = vadd_s(ht.2, drawn.0);
                        let dir = if vdot_s(cand, cand) == 0 {
                            ht.2
                        } else {
                            cand
                        };
                        let inner = ray_color_s(ht.1, dir, depth - 1, objs, drawn.1);
                        (vscale_s(inner.0, HALF as int), inner.1)
                    },
                }
            },
            None => (sky_s(rdir), st),
        }
    }
}

/// One pixel sample accumulation pass: draw a ray, resolve it, add it in.
#[verifier::opaque]
pub open spec fn sample_acc_s(
    w: int,
    h: int,
    depth: int,
    objs: Seq<Sphere>,
    i: int,
    j: int,
    n: nat,
    st: u64,
    acc: (int, int, int),
) -> ((int, int, int), u64)
    decreases n,
{
    if n == 0 {
        (acc, st)
    } else {
        let g = get_ray_s(w, h, i, j, st);
        let rc = ray_color_s(g.0.0, g.0.1, depth, objs, g.1);
        sample_acc_s(w, h, depth, objs, i, j, (n - 1) as nat, rc.1, vadd_s(acc, rc.0))
    }
}

/// One finished pixel: the sample sum scaled by the per-sample weight.
#[verifier::opaque]
pub open spec fn pixel_color_s(
    w: int,
    h: int,
    spp: nat,
    depth: int,
    scale: int,
    objs: Seq<Sphere>,
    i: int,
    j: int,
    st: u64,
) -> ((int, int, int), u64) {
    let sum = sample_acc_s(w, h, depth, objs, i, j, spp, st, (0, 0, 0));
    (vscale_s(sum.0, scale), sum.1)
}

/// One row of pixels appended to `acc`, left to right from column `i`.
#[verifier::opaque]
pub open spec fn render_row_s(
    w: int,
    h: int,
    spp: nat,
    depth: int,
    scale: int,
    objs: Seq<Sphere>,
    j: int,
    i: int,
    st: u64,
    acc: Seq<(int, int, int)>,
) -> (Seq<(int, int, int)>, u64)
    decreases w - i,
{
    if i < 0 || i >= w {
        (acc, st)
    } else {
        let px = pixel_color_s(w, h, spp, depth, scale, objs, i, j, st);
        render_row_s(w, h, spp, depth, scale, objs, j, i + 1, px.1, acc.push(px.0))
    }
}

/// All rows from `j` down appended to `acc`, top to bottom.
#[verifier::opaque]
pub open spec fn render_rows_s(
    w: int,
    h: int,
    spp: nat,
    depth: int,
    scale: int,
    objs: Seq<Sphere>,
    j: int,
    st: u64,
    acc: Seq<(int, int, int)>,
) -> (Seq<(int, int, int)>, u64)
    decreases h - j,
{
    if j < 0 || j >= h {
        (acc, st)
    } else {
        let row = render_row_s(w, h, spp, depth, scale, objs, j, 0, st, acc);
        render_rows_s(w, h, spp, depth, scale, objs, j + 1, row.1, row.0)
    }
}

/// The full image as a row-major pixel sequence, with the state left
/// behind: a pure function of the configuration, the scene and the seed.
pub open spec fn render_s(
    w: int,
    h: int,
    spp: nat,
    depth: int,
    scale: int,
    objs: Seq<Sphere>,
    seed: u64,
) -> (Seq<(int, int, int)>, u64) {
    render_rows_s(w, h, spp, depth, scale, objs, 0, seed, Seq::empty())
}

/// The triples of a pixel buffer.
pub open spec fn colors_view(s: Seq<Color>) -> Seq<(int, int, int)> {
    s.map_values(|c: Color| view3(c))
}

proof fn lemma_colors_view_push(s: Seq<Color>, c: Color)
    ensures
        colors_view(s.push(c)) == colors_view(s).push(view3(c)),
{
    assert_seqs_equal!(colors_view(s.push(c)) == colors_view(s).push(view3(c)));
}

/// How the image is windowed: fixed dimensions, or a width with an aspect
/// ratio from which the height is derived.
#[derive(Debug, Clone)]
pub enum Window {
    Fixed { width: u32, height: u32 },
    Ratio { width: u32, aspect: i128 },
}

/// The derived height of a ratio window.
pub open spec fn ratio_height_s(w: int, aspect: int) -> int {
    fx_div_s(px_s(w), aspect) / (SCALE as int)
}

/// The dimensions a window denotes.
pub open spec fn window_size_s(win: Window) -> (int, int) {
    match win {
        Window::Fixed { width, height } => (width as int, height as int),
        Window::Ratio { width, aspect } => {
            let q = ratio_height_s(width as int, aspect as int);
            let h = if q < 1 {
                1
            } else {
                q
            };
            (width as int, h)
        },
    }
}

/// A window the camera can be built from: the denoted dimensions must be
/// accepted by `dims_wf`.
pub open spec fn window_wf(win: Window) -> bool {
    match win {
        Window::Fixed { width, height } => dims_wf(width as int, height as int),
        Window::Ratio { width, aspect } => {
            &&& 1 <= width && width <= DIM_MAX
            &&& 0 < aspect
            &&& dims_wf(window_size_s(win).0, window_size_s(win).1)
        },
    }
}

impl Window {
    /// A window of fixed pixel dimensions.
    pub fn new(width: u32, height: u32) -> (r: Self)
        ensures
            r == (Window::Fixed { width, height }),
    {
        Window::Fixed { width, height }
    }

    /// A window of a given width whose height follows the aspect ratio
    /// (a fixed-point scalar: width over height).
    pub fn with_aspect_ratio(width: u32, aspect_ratio: i128) -> (r: Self)
        ensures
            r == (Window::Ratio { width, aspect: aspect_ratio }),
    {
        Window::Ratio { width, aspect: aspect_ratio }
    }

    /// The pixel dimensions this window denotes.
    fn size(&self) -> (r: (u32, u32))
        requires
            window_wf(*self),
        ensures
            (r.0 as int, r.1 as int) == window_size_s(*self),
            dims_wf(r.0 as int, r.1 as int),
    {
        match *self {
            Window::Fixed { width, height } => (width, height),
            Window::Ratio { width, aspect } => {
                let wfx: i128 = (width as i128) * SCALE;
                proof {
                    lemma_div_pos_is_pos(wfx as int * (SCALE as int), aspect as int);
                }
                let qf: i128 = fx_div(wfx, aspect);
                let q: i128 = ((qf as u128) / (SCALE as u128)) as i128;
                let height: u32 = if q < 1 {
                    1
                } else {
                    q as u32
                };
                (width, height)
            },
        }
    }

    /// Whether the camera accepts this window.
    pub fn valid(&self) -> (r: bool)
        ensures
            r == window_wf(*self),
    {
        match *self {
            Window::Fixed { width, height } => {
                1 <= width && width <= DIM_MAX && 1 <= height && height <= DIM_MAX
                    && width <= 100 * height
            },
            Window::Ratio { width, aspect } => {
                if !(1 <= width && width <= DIM_MAX && 0 < aspect) {
                    false
                } else {
                    let wfx: i128 = (width as i128) * SCALE;
                    proof {
                        lemma_div_pos_is_pos(wfx as int * (SCALE as int), aspect as int);
                    }
                    let qf: i128 = fx_div(wfx, aspect);
                    let q: i128 = ((qf as u128) / (SCALE as u128)) as i128;
                    let h: i128 = if q < 1 {
                        1
                    } else {
                        q
                    };
                    h <= DIM_MAX as i128 && (width as i128) <= 100 * h
                }
            },
        }
    }
}

/// The renderer configuration: dimensions, viewport, sampling and depth.
pub struct Camera {
    pub width: u32,
    pub height: u32,
    pub viewport: Viewport,
    pub samples_per_pixel: u16,
    pub samples_scale: i128,
    pub max_depth: u32,
}

/// The facts every built camera satisfies.
pub open spec fn camera_wf(c: Camera) -> bool {
    &&& dims_wf(c.width as int, c.height as int)
    &&& viewport_wf(c.viewport, c.width as int, c.height as int)
    &&& 1 <= c.samples_per_pixel
    &&& c.samples_scale == fx_div_s(SCALE as int, (c.samples_per_pixel as int) * (SCALE as int))
    &&& c.max_depth <= DEPTH_MAX
}

/// A camera under construction.
pub struct CameraBuilder {
    pub window: Window,
    pub samples_per_pixel: u16,
    pub max_depth: u32,
}

impl CameraBuilder {
    /// Defaults: a 400 by 400 window, 16 samples per pixel, depth 10.
    pub fn new() -> (r: Self)
        ensures
            r.window == (Window::Fixed { width: 400u32, height: 400u32 }),
            r.samples_per_pixel == 16,
            r.max_depth == 10,
    {
        CameraBuilder {
            window: Window::new(400, 400),
            samples_per_pixel: 16,
            max_depth: 10,
        }
    }

    /// Use the given window.
    pub fn window(self, window: Window) -> (r: Self)
        ensures
            r.window == window,
            r.samples_per_pixel == self.samples_per_pixel,
            r.max_depth == self.max_depth,
    {
        CameraBuilder { window, ..self }
    }

    /// Use the given number of samples per pixel.
    pub fn samples_per_pixel(self, samples: u16) -> (r: Self)
        requires
            1 <= samples,
        ensures
            r.window == self.window,
            r.samples_per_pixel == samples,
            r.max_depth == self.max_depth,
    {
        CameraBuilder { samples_per_pixel: samples, ..self }
    }

    /// Use the given recursion depth limit.
    pub fn max_depth(self, depth: u32) -> (r: Self)
        requires
            depth <= DEPTH_MAX,
        ensures
            r.window == self.window,
            r.samples_per_pixel == self.samples_per_pixel,
            r.max_depth == depth,
    {
        CameraBuilder { max_depth: depth, ..self }
    }

    /// Build the camera for this configuration.
    pub fn build(self) -> (r: Camera)
        requires
            window_wf(self.window),
            1 <= self.samples_per_pixel,
            self.max_depth <= DEPTH_MAX,
        ensures
            camera_wf(r),
            (r.width as int, r.height as int) == window_size_s(self.window),
            r.samples_per_pixel == self.samples_per_pixel,
            r.max_depth == self.max_depth,
    {
        let (width, height) = self.window.size();
        let viewport: Viewport = Viewport::new(width, height, Point3::zero());
        let spp_fx: i128 = (self.samples_per_pixel as i128) * SCALE;
        let samples_scale: i128 = fx_div(SCALE, spp_fx);
        Camera {
            width,
            height,
            viewport,
            samples_per_pixel: self.samples_per_pixel,
            samples_scale,
            max_depth: self.max_depth,
        }
    }
}

impl Camera {
    /// A builder with default settings.
    pub fn builder() -> (r: CameraBuilder)
        ensures
            r.window == (Window::Fixed { width: 400u32, height: 400u32 }),
            r.samples_per_pixel == 16,
            r.max_depth == 10,
    {
        CameraBuilder::new()
    }

    /// The jittered ray for pixel `(i, j)`; exactly as `get_ray_s` draws it.
    pub fn get_ray(&self, i: u32, j: u32, s: &mut Sampler) -> (r: Ray)
        requires
            camera_wf(*self),
            i < self.width,
            j < self.height,
        ensures
            ({
                let tw = get_ray_s(self.width as int, self.height as int, i as int, j as int, old(s).state);
                &&& (view3(r.orig), view3(r.dir)) == tw.0
                &&& final(s).state == tw.1
            }),
            r.orig.x == 0 && r.orig.y == 0 && r.orig.z == 0,
            r.dir.bounded(DIR_LIM as int),
            0 < vdot_s(view3(r.dir), view3(r.dir)),
    {
        let ghost w: int = self.width as int;
        let ghost h: int = self.height as int;
        proof {
            reveal(get_ray_s);
            lemma_viewport_bounds(w, h);
        }
        let offset: Vec3 = sample_square(s);
        let su: i128 = (i as i128) * SCALE + offset.x;
        let sv: i128 = (j as i128) * SCALE + offset.y;
        proof {
            let du = view3(self.viewport.pixel_delta_u);
            let dv = view3(self.viewport.pixel_delta_v);
            lemma_delta_scale(du.0, vw_s(w, h), px_s(w), su as int);
            lemma_delta_scale(du.1, 0, px_s(w), su as int);
            lemma_delta_scale(du.2, 0, px_s(w), su as int);
            lemma_delta_scale(dv.0, 0, px_s(h), sv as int);
            lemma_delta_scale(dv.1, vh_s(), px_s(h), sv as int);
            lemma_delta_scale(dv.2, 0, px_s(h), sv as int);
            lemma_mul_upper_bound(iabs(du.0), 2_000_000int, iabs(su as int), 100_010_000int);
            lemma_mul_upper_bound(iabs(dv.1), 20_000int, iabs(sv as int), 100_010_000int);
        }
        let du_step: Vec3 = self.viewport.pixel_delta_u.scale(su);
        let dv_step: Vec3 = self.viewport.pixel_delta_v.scale(sv);
        let pixel_sample: Vec3 = self.viewport.pixel_start.add(&du_step).add(&dv_step);
        let direction: Vec3 = pixel_sample.sub(&self.viewport.center);
        proof {
            lemma_fx_sq_nonneg(direction.x as int);
            lemma_fx_sq_nonneg(direction.y as int);
            lemma_fx_sq_nonneg(direction.z as int);
            assert(direction.z == -SCALE);
            assert(fx_mul_s(-(SCALE as int), -(SCALE as int)) == SCALE as int);
        }
        Ray::new(self.viewport.center, direction)
    }

    /// The radiance along `ray`, resolved against `world` with at most
    /// `depth` bounces; exactly as `ray_color_s` resolves it.
    pub fn ray_color(ray: &Ray, depth: u32, world: &World, s: &mut Sampler) -> (r: Color)
        requires
            world_wf(*world),
            depth <= DEPTH_MAX,
            ray.dir.bounded(DIR_LIM as int),
            0 < vdot_s(view3(ray.dir), view3(ray.dir)),
            ray.orig.bounded(ORIGIN_LIM as int - (depth as int) * (BOUNCE_STEP as int)),
        ensures
            ({
                let tw = ray_color_s(
                    view3(ray.orig),
                    view3(ray.dir),
                    depth as int,
                    world.objects@,
                    old(s).state,
                );
                &&& view3(r) == tw.0
                &&& final(s).state == tw.1
            }),
            r.bounded(4 * SCALE as int),
        decreases depth,
    {
        proof {
            reveal(ray_color_s);
        }
        if depth == 0 {
            return Vec3::zero();
        }
        proof {
            assert(ray.orig.bounded(ORIGIN_LIM as int)) by {
                lemma_mul_upper_bound(depth as int, DEPTH_MAX as int, BOUNCE_STEP as int, BOUNCE_STEP as int);
            };
        }
        match world.hit(ray, Interval::new(T_ACNE, T_FAR)) {
            Some(hit) => {
                proof {
                    lemma_point_growth(
                        view3(ray.orig),
                        view3(ray.dir),
                        hit.t as int,
                        ORIGIN_LIM as int - (depth as int) * (BOUNCE_STEP as int),
                    );
                }
                let mat = hit.material;
                match mat.scatter(ray, &hit, s) {
                    Some(sc) => {
                        let rec: Color = Self::ray_color(&sc.ray, depth - 1, world, s);
                        proof {
                            lemma_att_caps(sc.attenuation, rec);
                        }
                        sc.attenuation.cmul(&rec)
                    },
                    None => {
                        let u: Vec3 = rand_vec_unit(s);
                        let cand: Vec3 = hit.normal.add(&u);
                        proof {
                            lemma_self_caps(cand, 4 * SCALE as int);
                            crate::vec3::lemma_vdot_self_nonneg(view3(cand));
                        }
                        let direction: Vec3 = if cand.near_zero() {
                            hit.normal
                        } else {
                            cand
                        };
                        let bounce: Ray = Ray::new(hit.point, direction);
                        let rec: Color = Self::ray_color(&bounce, depth - 1, world, s);
                        proof {
                            lemma_scale_half_caps(rec);
                        }
                        rec.scale(HALF)
                    },
                }
            },
            None => {
                proof {
                    lemma_self_caps(ray.dir, DIR_LIM as int);
                    lemma_vdot_bound(view3(ray.dir), view3(ray.dir), DIR_LIM as int, DIR_LIM as int);
                }
                let unit: Vec3 = ray.direction().unit();
                proof {
                    lemma_fx_mul_bound(HALF as int, unit.y as int + SCALE as int, HALF as int, 30_000int);
                    lemma_mul_upper_bound(HALF as int, HALF as int, iabs(unit.y as int + SCALE as int), 30_000int);
                }
                let a: i128 = fx_mul(HALF, unit.y + SCALE);
                proof {
                    lemma_sky_caps(a);
                }
                let white_part: Vec3 = Vec3::one().scale(SCALE - a);
                let blue: Vec3 = Vec3::new(5_000, 7_000, 10_000);
                let blue_part: Vec3 = blue.scale(a);
                white_part.add(&blue_part)
            },
        }
    }

    /// One finished pixel: the averaged radiance of `samples_per_pixel`
    /// jittered samples; exactly as `pixel_color_s` computes it.
    #[verifier::rlimit(100)]
    fn render_pixel(&self, world: &World, i: u32, j: u32, s: &mut Sampler) -> (r: Color)
        requires
            camera_wf(*self),
            world_wf(*world),
            i < self.width,
            j < self.height,
        ensures
            ({
                let tw = pixel_color_s(
                    self.width as int,
                    self.height as int,
                    self.samples_per_pixel as nat,
                    self.max_depth as int,
                    self.samples_scale as int,
                    world.objects@,
                    i as int,
                    j as int,
                    old(s).state,
                );
                &&& view3(r) == tw.0
                &&& final(s).state == tw.1
            }),
            r.bounded(3_000_000_000int),
    {
        let ghost cfg_w = self.width as int;
        let ghost cfg_h = self.height as int;
        let ghost spp = self.samples_per_pixel as nat;
        let ghost depth = self.max_depth as int;
        let ghost objs = world.objects@;
        let ghost px_state = s.state;
        let ghost sum_goal = sample_acc_s(
            cfg_w,
            cfg_h,
            depth,
            objs,
            i as int,
            j as int,
            spp,
            px_state,
            (0, 0, 0),
        );
        let mut color: Color = Vec3::zero();
        let mut k: u16 = 0;
        proof {
            reveal(sample_acc_s);
            reveal(pixel_color_s);
        }
        while k < self.samples_per_pixel
            invariant
                camera_wf(*self),
                world_wf(*world),
                cfg_w == self.width as int,
                cfg_h == self.height as int,
                spp == self.samples_per_pixel as nat,
                depth == self.max_depth as int,
                objs == world.objects@,
                i < self.width,
                j < self.height,
                k <= self.samples_per_pixel,
                color.bounded(4 * (SCALE as int) * (k as int)),
                sample_acc_s(
                    cfg_w,
                    cfg_h,
                    depth,
                    objs,
                    i as int,
                    j as int,
                    (self.samples_per_pixel - k) as nat,
                    s.state,
                    view3(color),
                ) == sum_goal,
            decreases self.samples_per_pixel - k,
        {
            proof {
                reveal(sample_acc_s);
            }
            let ray: Ray = self.get_ray(i, j, s);
            let rc: Color = Self::ray_color(&ray, self.max_depth, world, s);
            proof {
                assert(color.bounded(crate::vec3::VEC_LIM as int)) by {
                    lemma_mul_upper_bound(4 * SCALE as int, 4 * SCALE as int, k as int, 65_536int);
                };
            }
            color = color.add(&rc);
            k = k + 1;
            proof {
                assert(4 * (SCALE as int) * (k as int) == 4 * (SCALE as int) * (k as int - 1) + 4
                    * (SCALE as int)) by (nonlinear_arith);
            }
        }
        proof {
            lemma_mul_upper_bound(4 * SCALE as int, 4 * SCALE as int, k as int, 65_536int);
            lemma_samples_scale_range(self.samples_per_pixel as int);
            lemma_px_scale_caps(color, self.samples_scale);
        }
        color.scale(self.samples_scale)
    }

    /// Render the scene: for every pixel, average `samples_per_pixel`
    /// jittered radiance samples; exactly as `render_s` lays them out.
    #[verifier::rlimit(100)]
    pub fn render(&self, world: &World, s: &mut Sampler) -> (r: Image)
        requires
            camera_wf(*self),
            world_wf(*world),
        ensures
            r.width == self.width,
            r.height == self.height,
            r.data@.len() == (self.width as int) * (self.height as int),
            ({
                let tw = render_s(
                    self.width as int,
                    self.height as int,
                    self.samples_per_pixel as nat,
                    self.max_depth as int,
                    self.samples_scale as int,
                    world.objects@,
                    old(s).state,
                );
                &&& colors_view(r.data@) == tw.0
                &&& final(s).state == tw.1
            }),
            forall|k: int|
                0 <= k < r.data@.len() ==> (#[trigger] r.data@[k]).bounded(3_000_000_000int),
    {
        let w: u32 = self.width;
        let h: u32 = self.height;
        let ghost cfg_w = w as int;
        let ghost cfg_h = h as int;
        let ghost spp = self.samples_per_pixel as nat;
        let ghost depth = self.max_depth as int;
        let ghost scale = self.samples_scale as int;
        let ghost objs = world.objects@;
        let ghost seed = s.state;
        let ghost goal = render_s(cfg_w, cfg_h, spp, depth, scale, objs, seed);
        let mut data: Vec<Color> = Vec::new();
        proof {
            assert_seqs_equal!(colors_view(Seq::<Color>::empty()) == Seq::<(int, int, int)>::empty());
            assert(colors_view(data@) == Seq::<(int, int, int)>::empty());
        }
        let mut j: u32 = 0;
        while j < h
            invariant
                camera_wf(*self),
                world_wf(*world),
                w == self.width,
                h == self.height,
                cfg_w == w as int,
                cfg_h == h as int,
                spp == self.samples_per_pixel as nat,
                depth == self.max_depth as int,
                scale == self.samples_scale as int,
                objs == world.objects@,
                goal == render_s(cfg_w, cfg_h, spp, depth, scale, objs, seed),
                j <= h,
                data@.len() == (j as int) * cfg_w,
                render_rows_s(cfg_w, cfg_h, spp, depth, scale, objs, j as int, s.state, colors_view(data@)) == goal,
                forall|k: int|
                    0 <= k < data@.len() ==> (#[trigger] data@[k]).bounded(3_000_000_000int),
            decreases h - j,
        {
            let ghost row_state = s.state;
            let ghost row_data = data@;
            let ghost row_goal = render_row_s(
                cfg_w,
                cfg_h,
                spp,
                depth,
                scale,
                objs,
                j as int,
                0,
                row_state,
                colors_view(row_data),
            );
            let mut i: u32 = 0;
            while i < w
                invariant
                    camera_wf(*self),
                    world_wf(*world),
                    w == self.width,
                    h == self.height,
                    cfg_w == w as int,
                    cfg_h == h as int,
                    spp == self.samples_per_pixel as nat,
                    depth == self.max_depth as int,
                    scale == self.samples_scale as int,
                    objs == world.objects@,
                    j < h,
                    i <= w,
                    data@.len() == (j as int) * cfg_w + i as int,
                    render_row_s(cfg_w, cfg_h, spp, depth, scale, objs, j as int, i as int, s.state, colors_view(data@)) == row_goal,
                    forall|k: int|
                        0 <= k < data@.len() ==> (#[trigger] data@[k]).bounded(3_000_000_000int),
                decreases w - i,
            {
                proof {
                    reveal(render_row_s);
                    reveal(pixel_color_s);
                }
                let px: Color = self.render_pixel(world, i, j, s);
                let ghost before = data@;
                data.push(px);
                proof {
                    lemma_colors_view_push(before, px);
                    assert(data@ == before.push(px));
                }
                i = i + 1;
            }
            proof {
                reveal(render_row_s);
                reveal(render_rows_s);
            }
            j = j + 1;
            proof {
                assert((j as int) * cfg_w == (j as int - 1) * cfg_w + cfg_w) by (nonlinear_arith);
            }
        }
        proof {
            reveal(render_rows_s);
            assert(data@.len() == (cfg_h * cfg_w));
            assert((self.width as int) * (self.height as int) == cfg_h * cfg_w) by (nonlinear_arith)
                requires
                    cfg_w == self.width as int,
                    cfg_h == self.height as int,
            ;
        }
        let img: Option<Image> = Image::new(w, h, data);
        img.unwrap()
    }
}

/// Against an empty scene the integrator returns the sky gradient at once,
/// with no recursion and no randomness consumed, for any positive depth.
pub proof fn lemma_empty_world_sky(
    rorig: (int, int, int),
    rdir: (int, int, int),
    depth: int,
    objs: Seq<Sphere>,
    st: u64,
)
    requires
        objs.len() == 0,
        1 <= depth,
    ensures
        ray_color_s(rorig, rdir, depth, objs, st) == (sky_s(rdir), st),
{
    reveal(ray_color_s);
    assert(world_hit_s(objs, rorig, rdir, T_ACNE as int, T_FAR as int) is None);
}

/// End-to-end determinism: two renders of the identical configuration,
/// scene and sampler seed produce the identical pixel sequence and leave
/// the sampler in the identical state.  (The contract of `render` ties each
/// run's output to `render_s`, which is a function of these inputs alone.)
pub proof fn lemma_render_deterministic(
    out1: (Seq<(int, int, int)>, u64),
    out2: (Seq<(int, int, int)>, u64),
    w: int,
    h: int,
    spp: nat,
    depth: int,
    scale: int,
    objs: Seq<Sphere>,
    seed: u64,
)
    requires
        out1 == render_s(w, h, spp, depth, scale, objs, seed),
        out2 == render_s(w, h, spp, depth, scale, objs, seed),
    ensures
        out1 == out2,
{
}

/// Caps for attenuating a bounded radiance by a well-formed color.
proof fn lemma_att_caps(att: Color, rec: Color)
    requires
        crate::material::color_wf(att),
        rec.bounded(4 * SCALE as int),
    ensures
        att.bounded(crate::fx::MUL_IN_MAX as int),
        rec.bounded(crate::fx::MUL_IN_MAX as int),
        iabs(att.x as int) * iabs(rec.x as int) <= crate::fx::MUL_PROD_MAX as int,
        iabs(att.y as int) * iabs(rec.y as int) <= crate::fx::MUL_PROD_MAX as int,
        iabs(att.z as int) * iabs(rec.z as int) <= crate::fx::MUL_PROD_MAX as int,
        bounded3(vcmul_s(view3(att), view3(rec)), 4 * SCALE as int),
{
    lemma_mul_upper_bound(iabs(att.x as int), SCALE as int, iabs(rec.x as int), 4 * SCALE as int);
    lemma_mul_upper_bound(iabs(att.y as int), SCALE as int, iabs(rec.y as int), 4 * SCALE as int);
    lemma_mul_upper_bound(iabs(att.z as int), SCALE as int, iabs(rec.z as int), 4 * SCALE as int);
    lemma_fx_mul_bound(att.x as int, rec.x as int, SCALE as int, 4 * SCALE as int);
    lemma_fx_mul_bound(att.y as int, rec.y as int, SCALE as int, 4 * SCALE as int);
    lemma_fx_mul_bound(att.z as int, rec.z as int, SCALE as int, 4 * SCALE as int);
}

/// Caps for the component squares of a bounded vector.
proof fn lemma_self_caps(a: Vec3, m: int)
    requires
        a.bounded(m),
        0 <= m,
    ensures
        iabs(a.x as int) * iabs(a.x as int) <= m * m,
        iabs(a.y as int) * iabs(a.y as int) <= m * m,
        iabs(a.z as int) * iabs(a.z as int) <= m * m,
{
    lemma_mul_upper_bound(iabs(a.x as int), m, iabs(a.x as int), m);
    lemma_mul_upper_bound(iabs(a.y as int), m, iabs(a.y as int), m);
    lemma_mul_upper_bound(iabs(a.z as int), m, iabs(a.z as int), m);
}

/// Caps for halving a bounded radiance.
proof fn lemma_scale_half_caps(rec: Color)
    requires
        rec.bounded(4 * SCALE as int),
    ensures
        rec.bounded(crate::fx::MUL_IN_MAX as int),
        iabs(rec.x as int) * iabs(HALF as int) <= crate::fx::MUL_PROD_MAX as int,
        iabs(rec.y as int) * iabs(HALF as int) <= crate::fx::MUL_PROD_MAX as int,
        iabs(rec.z as int) * iabs(HALF as int) <= crate::fx::MUL_PROD_MAX as int,
        bounded3(vscale_s(view3(rec), HALF as int), 4 * SCALE as int),
{
    lemma_mul_upper_bound(iabs(rec.x as int), 4 * SCALE as int, iabs(HALF as int), HALF as int);
    lemma_mul_upper_bound(iabs(rec.y as int), 4 * SCALE as int, iabs(HALF as int), HALF as int);
    lemma_mul_upper_bound(iabs(rec.z as int), 4 * SCALE as int, iabs(HALF as int), HALF as int);
    lemma_fx_mul_bound(rec.x as int, HALF as int, 4 * SCALE as int, HALF as int);
    lemma_fx_mul_bound(rec.y as int, HALF as int, 4 * SCALE as int, HALF as int);
    lemma_fx_mul_bound(rec.z as int, HALF as int, 4 * SCALE as int, HALF as int);
}

/// Caps for blending the sky gradient with factor `a`.
proof fn lemma_sky_caps(a: i128)
    requires
        iabs(a as int) <= 15_000int,
    ensures
        iabs((SCALE - a) as int) <= 25_000int,
        iabs(SCALE as int) * iabs((SCALE - a) as int) <= crate::fx::MUL_PROD_MAX as int,
        iabs(10_000int) * iabs(a as int) <= crate::fx::MUL_PROD_MAX as int,
        iabs(7_000int) * iabs(a as int) <= crate::fx::MUL_PROD_MAX as int,
        iabs(5_000int) * iabs(a as int) <= crate::fx::MUL_PROD_MAX as int,
        bounded3(vscale_s((SCALE as int, SCALE as int, SCALE as int), (SCALE as int) - a), 25_000int),
        bounded3(vscale_s((5_000int, 7_000int, 10_000int), a as int), 15_000int),
{
    lemma_mul_upper_bound(iabs(SCALE as int), SCALE as int, iabs((SCALE - a) as int), 25_000int);
    lemma_mul_upper_bound(iabs(10_000int), 10_000int, iabs(a as int), 15_000int);
    lemma_mul_upper_bound(iabs(7_000int), 10_000int, iabs(a as int), 15_000int);
    lemma_mul_upper_bound(iabs(5_000int), 10_000int, iabs(a as int), 15_000int);
    lemma_fx_mul_bound(SCALE as int, (SCALE as int) - a, SCALE as int, 25_000int);
    lemma_fx_mul_bound(5_000int, a as int, 5_000int, 15_000int);
    lemma_fx_mul_bound(7_000int, a as int, 7_000int, 15_000int);
    lemma_fx_mul_bound(10_000int, a as int, 10_000int, 15_000int);
}

/// The per-sample weight lies in `[0, 1]`.
proof fn lemma_samples_scale_range(spp: int)
    requires
        1 <= spp,
    ensures
        0 <= fx_div_s(SCALE as int, spp * (SCALE as int)),
        fx_div_s(SCALE as int, spp * (SCALE as int)) <= SCALE as int,
{
    let s = SCALE as int;
    let d = spp * s;
    assert(s <= d) by (nonlinear_arith)
        requires
            1 <= spp,
            0 < s,
            d == spp * s,
    ;
    vstd::arithmetic::mul::lemma_mul_nonnegative(s, s);
    lemma_div_pos_is_pos(s * s, d);
    assert(s * s <= s * d) by (nonlinear_arith)
        requires
            s <= d,
            0 < s,
    ;

    lemma_div_is_ordered(s * s, s * d, d);
    lemma_div_by_multiple(s, d);
    assert(s * d == d * s) by (nonlinear_arith);
}

/// Caps for scaling a sample sum by the per-sample weight.
proof fn lemma_px_scale_caps(color: Color, scale: i128)
    requires
        color.bounded(4 * (SCALE as int) * 65_536),
        0 <= scale && scale <= SCALE,
    ensures
        color.bounded(crate::fx::MUL_IN_MAX as int),
        iabs(scale as int) <= crate::fx::MUL_IN_MAX as int,
        iabs(color.x as int) * iabs(scale as int) <= crate::fx::MUL_PROD_MAX as int,
        iabs(color.y as int) * iabs(scale as int) <= crate::fx::MUL_PROD_MAX as int,
        iabs(color.z as int) * iabs(scale as int) <= crate::fx::MUL_PROD_MAX as int,
        bounded3(vscale_s(view3(color), scale as int), 3_000_000_000int),
{
    let b = 4 * (SCALE as int) * 65_536;
    lemma_mul_upper_bound(iabs(color.x as int), b, iabs(scale as int), SCALE as int);
    lemma_mul_upper_bound(iabs(color.y as int), b, iabs(scale as int), SCALE as int);
    lemma_mul_upper_bound(iabs(color.z as int), b, iabs(scale as int), SCALE as int);
    lemma_fx_mul_bound(color.x as int, scale as int, b, SCALE as int);
    lemma_fx_mul_bound(color.y as int, scale as int, b, SCALE as int);
    lemma_fx_mul_bound(color.z as int, scale as int, b, SCALE as int);
}

} // verus!
