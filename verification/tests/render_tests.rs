use pathtracer::camera::{Camera, Window};
use pathtracer::color::to_channel;
use pathtracer::fx::{fx_div, fx_mul, fx_sqrt, SCALE};
use pathtracer::image::Image;
use pathtracer::interval::Interval;
use pathtracer::material::{dielectric, lambertian, metal, Material};
use pathtracer::ray::{Hit, Ray, Sphere, World};
use pathtracer::sampler::Sampler;
use pathtracer::util::{reflect, HALF};
use pathtracer::vec3::Vec3;

#[test]
fn fx_arithmetic_exact_values() {
    // 1.5 * 2.0 == 3.0, 1.0 / 4.0 == 0.25, sqrt(4.0) == 2.0.
    assert_eq!(fx_mul(15_000, 20_000), 30_000);
    assert_eq!(fx_div(10_000, 40_000), 2_500);
    assert_eq!(fx_sqrt(40_000), 20_000);
    assert_eq!(fx_sqrt(10_000), 10_000);
    // Truncation is toward zero on both sides.
    assert_eq!(fx_mul(-15_000, 20_000), -30_000);
    assert_eq!(fx_div(-10_000, 30_000), -3_333);
    assert_eq!(fx_div(10_000, 30_000), 3_333);
}

#[test]
fn interval_clamp_and_surrounds() {
    let iv = Interval::new(-50_000, 100_000);
    assert_eq!(iv.clamp(-70_000), -50_000);
    assert_eq!(iv.clamp(30_000), 30_000);
    assert_eq!(iv.clamp(990_000), 100_000);
    assert!(!iv.surrounds(-50_000));
    assert!(!iv.surrounds(100_000));
    assert!(iv.surrounds(0));
    assert!(!iv.surrounds(-60_000));
}

#[test]
fn near_zero_detects_grid_underflow() {
    assert!(Vec3::new(50, 50, 0).near_zero());
    assert!(Vec3::new(0, 0, 0).near_zero());
    assert!(!Vec3::new(SCALE, 0, 0).near_zero());
}

#[test]
fn sphere_radius_clamped_to_zero() {
    let mat = lambertian(Vec3::new(5_000, 5_000, 5_000));
    let s = Sphere::new(Vec3::zero(), -5_000, mat);
    assert_eq!(s.radius, 0);
}

#[test]
fn aimed_ray_hits_at_distance_minus_radius() {
    // Center two units down the axis, radius one half: t = 2.0 - 0.5 = 1.5.
    let mat = lambertian(Vec3::new(5_000, 5_000, 5_000));
    let sphere = Sphere::new(Vec3::new(0, 0, -20_000), 5_000, mat);
    let ray = Ray::new(Vec3::zero(), Vec3::new(0, 0, -SCALE));
    let hit = sphere.hit(&ray, Interval::new(10, 10_000_000_000)).unwrap();
    assert_eq!(hit.t, 15_000);
    assert!(hit.front_face);
    // The normal points away from the center, back along the ray.
    assert_eq!(hit.normal, Vec3::new(0, 0, SCALE));
    assert_eq!(hit.point, Vec3::new(0, 0, -15_000));
}

#[test]
fn inside_ray_reports_back_face() {
    let mat = lambertian(Vec3::new(5_000, 5_000, 5_000));
    let sphere = Sphere::new(Vec3::new(0, 0, -20_000), 5_000, mat);
    // Origin at the center, pointing outward along -z.
    let ray = Ray::new(Vec3::new(0, 0, -20_000), Vec3::new(0, 0, -SCALE));
    let hit = sphere.hit(&ray, Interval::new(10, 10_000_000_000)).unwrap();
    assert_eq!(hit.t, 5_000);
    assert!(!hit.front_face);
    // The normal is flipped to oppose the outgoing ray.
    assert_eq!(hit.normal, Vec3::new(0, 0, SCALE));
}

#[test]
fn world_returns_nearest_regardless_of_order() {
    let mat = lambertian(Vec3::new(5_000, 5_000, 5_000));
    let near = Sphere::new(Vec3::new(0, 0, -20_000), 5_000, mat);
    let far = Sphere::new(Vec3::new(0, 0, -60_000), 5_000, mat);
    let ray = Ray::new(Vec3::zero(), Vec3::new(0, 0, -SCALE));
    let iv = Interval::new(10, 10_000_000_000);

    let mut w1 = World::new();
    w1.add(Sphere::new(Vec3::new(0, 0, -60_000), 5_000, mat));
    w1.add(Sphere::new(Vec3::new(0, 0, -20_000), 5_000, mat));
    let h1 = w1.hit(&ray, iv).unwrap();

    let mut w2 = World::new();
    w2.add(near);
    w2.add(far);
    let h2 = w2.hit(&ray, iv).unwrap();

    assert_eq!(h1.t, 15_000);
    assert_eq!(h2.t, 15_000);
    assert_eq!(h1.point, h2.point);
    assert_eq!(h1.normal, h2.normal);
}

#[test]
fn lambertian_attenuation_is_albedo() {
    let albedo = Vec3::new(1_000, 2_000, 5_000);
    let mat = lambertian(albedo);
    let hit = Hit {
        t: 5_000,
        point: Vec3::zero(),
        normal: Vec3::new(0, 0, SCALE),
        front_face: true,
        material: mat,
    };
    let ray = Ray::new(Vec3::new(0, 0, SCALE), Vec3::new(0, 0, -SCALE));
    let mut s = Sampler::new(1);
    let sc = mat.scatter(&ray, &hit, &mut s).unwrap();
    assert_eq!(sc.attenuation, albedo);
}

#[test]
fn metal_reflects_head_on_and_rejects_grazing() {
    let albedo = Vec3::new(8_000, 6_000, 2_000);
    let mat = metal(albedo, 0);
    let hit = Hit {
        t: 5_000,
        point: Vec3::zero(),
        normal: Vec3::new(0, 0, SCALE),
        front_face: true,
        material: mat,
    };
    // Head on: the mirror image of -z about +z is +z.
    let ray = Ray::new(Vec3::new(0, 0, SCALE), Vec3::new(0, 0, -SCALE));
    let mut s = Sampler::new(1);
    let sc = mat.scatter(&ray, &hit, &mut s).unwrap();
    assert_eq!(sc.attenuation, albedo);
    assert_eq!(sc.ray.dir, Vec3::new(0, 0, SCALE));
    // Grazing: the reflection of a ray parallel to the surface has a zero
    // dot product with the normal, so the scatter is rejected.
    let grazing = Ray::new(Vec3::new(0, 0, SCALE), Vec3::new(SCALE, 0, 0));
    let mut s2 = Sampler::new(1);
    assert!(mat.scatter(&grazing, &hit, &mut s2).is_none());
}

#[test]
fn dielectric_total_internal_reflection_is_deterministic() {
    // Exiting glass (back face) at a grazing angle: ratio * sin > 1, so the
    // ray always reflects and the sampler is never consulted.
    let mat = dielectric(15_000);
    let hit = Hit {
        t: 5_000,
        point: Vec3::zero(),
        normal: Vec3::new(0, 0, SCALE),
        front_face: false,
        material: mat,
    };
    let dir = Vec3::new(9_000, 0, -4_000);
    let ray = Ray::new(Vec3::new(0, 0, SCALE), dir);
    let mut s = Sampler::new(99);
    let state_before = s.state;
    let sc = mat.scatter(&ray, &hit, &mut s).unwrap();
    assert_eq!(s.state, state_before);
    assert_eq!(sc.attenuation, Vec3::new(SCALE, SCALE, SCALE));
    let expected = reflect(&dir.unit(), &hit.normal);
    assert_eq!(sc.ray.dir, expected);
    // The reflection leaves on the normal's side; refraction would not.
    assert!(sc.ray.dir.z() > 0);
}

#[test]
fn gamma_clamp_channel_values() {
    // 0.0 -> 0; 1.0 -> sqrt 1.0, clamped to 0.9999, scaled: 255.
    assert_eq!(to_channel(0), 0);
    assert_eq!(to_channel(SCALE), 255);
    // Negative light is floored to black.
    assert_eq!(to_channel(-5_000), 0);
    // 0.25 -> 0.5 -> 127 (truncation of 127.9995).
    assert_eq!(to_channel(2_500), 127);
    let (r, g, b) = Vec3::new(0, SCALE, 2_500).channels();
    assert_eq!((r, g, b), (0, 255, 127));
}

#[test]
fn image_rejects_mismatched_buffer() {
    let data = vec![Vec3::zero(), Vec3::zero(), Vec3::zero()];
    assert!(Image::new(2, 2, data).is_none());
    let data4 = vec![Vec3::zero(), Vec3::zero(), Vec3::zero(), Vec3::zero()];
    assert!(Image::new(2, 2, data4).is_some());
}

#[test]
fn aspect_ratio_window_derives_height() {
    // 16:9 as a fixed-point ratio.
    let aspect = fx_div(16 * SCALE, 9 * SCALE);
    let win = Window::with_aspect_ratio(900, aspect);
    assert!(win.valid());
    let cam = Camera::builder().window(win).build();
    assert_eq!(cam.width, 900);
    assert_eq!(cam.height, 506);
}

#[test]
fn empty_scene_renders_pure_sky() {
    let cam = Camera::builder()
        .window(Window::new(2, 2))
        .samples_per_pixel(1)
        .max_depth(1)
        .build();
    let world = World::new();
    let mut s = Sampler::new(7);
    let image = cam.render(&world, &mut s);
    assert_eq!(image.width(), 2);
    assert_eq!(image.height(), 2);

    // Replay the sampler: each pixel must be exactly the sky gradient of
    // its own jittered ray (one sample, weight one).
    let mut s2 = Sampler::new(7);
    let mut idx: usize = 0;
    for j in 0..2u32 {
        for i in 0..2u32 {
            let ray = cam.get_ray(i, j, &mut s2);
            let unit = ray.direction().unit();
            let a = fx_mul(HALF, unit.y() + SCALE);
            let expected = Vec3::one()
                .scale(SCALE - a)
                .add(&Vec3::new(5_000, 7_000, 10_000).scale(a));
            assert_eq!(image.pixel(idx), expected);
            idx += 1;
        }
    }
}

#[test]
fn seeded_renders_are_identical() {
    let mat_ground = lambertian(Vec3::new(8_000, 8_000, 0));
    let mat_glass = dielectric(15_000);
    let mat_metal = metal(Vec3::new(8_000, 6_000, 2_000), 10_000);
    let mut world = World::new();
    world.add(Sphere::new(Vec3::new(0, -1_005_000, -10_000), 1_000_000, mat_ground));
    world.add(Sphere::new(Vec3::new(-10_000, 0, -12_000), 5_000, mat_glass));
    world.add(Sphere::new(Vec3::new(10_000, 0, -10_000), 5_000, mat_metal));

    let cam = Camera::builder()
        .window(Window::new(8, 6))
        .samples_per_pixel(4)
        .max_depth(8)
        .build();

    let mut s1 = Sampler::new(123_456_789);
    let im1 = cam.render(&world, &mut s1);
    let mut s2 = Sampler::new(123_456_789);
    let im2 = cam.render(&world, &mut s2);

    assert_eq!(im1.width(), im2.width());
    assert_eq!(im1.height(), im2.height());
    assert_eq!(s1.state, s2.state);
    for idx in 0..(im1.width() * im1.height()) as usize {
        assert_eq!(im1.pixel(idx), im2.pixel(idx));
        let (r, g, b) = im1.pixel(idx).channels();
        let (r2, g2, b2) = im2.pixel(idx).channels();
        assert_eq!((r, g, b), (r2, g2, b2));
    }
}

#[test]
fn sampler_is_seeded_and_in_range() {
    let mut a = Sampler::new(42);
    let mut b = Sampler::new(42);
    for _ in 0..100 {
        let x = a.rand();
        let y = b.rand();
        assert_eq!(x, y);
        assert!(0 <= x && x < SCALE);
    }
    let mut c = Sampler::new(43);
    for _ in 0..100 {
        let v = c.rand_range(-SCALE, SCALE);
        assert!(-SCALE <= v && v < SCALE);
    }
}

#[test]
fn reflect_mirrors_about_normal() {
    let n = Vec3::new(0, SCALE, 0);
    let v = Vec3::new(7_000, -7_000, 0);
    let r = reflect(&v, &n);
    assert_eq!(r, Vec3::new(7_000, 7_000, 0));
}
