use ray_tracer::camera::Camera;
use ray_tracer::hitable::Hitable;
use ray_tracer::hitable::HitableList;
use ray_tracer::hitable::Sphere;
use ray_tracer::material::Dielectric;
use ray_tracer::material::Lambertian;
use ray_tracer::material::Metal;
use ray_tracer::material::Surface;
use ray_tracer::ray::Ray;
use ray_tracer::sampler::Sampler;
use ray_tracer::scalar::Real;
use ray_tracer::tracer::color;
use ray_tracer::tracer::quantize;
use ray_tracer::tracer::render;
use ray_tracer::tracer::render_pixel;
use ray_tracer::tracer::sample;
use ray_tracer::tracer::shade;
use ray_tracer::tracer::sky;
use ray_tracer::tracer::to_byte;
use ray_tracer::vec3::Vec3;

/// The fixed-point number nearest to `x`.
fn fixed(x: f64) -> Real {
    Real::from_raw((x * 4294967296.0).round() as i64)
}

fn float(r: Real) -> f64 {
    r.raw as f64 / 4294967296.0
}

fn vec(x: f64, y: f64, z: f64) -> Vec3 {
    Vec3::new(fixed(x), fixed(y), fixed(z))
}

fn bytes(c: Vec3) -> (u8, u8, u8) {
    (quantize(c.x), quantize(c.y), quantize(c.z))
}

fn mirror(z: f64) -> Sphere {
    Sphere::new(vec(0.0, 0.0, z), Real::one(), Surface::Metal(Metal::new(vec(1.0, 1.0, 1.0), Real::zero())))
}

fn small_world() -> HitableList {
    vec![
        Sphere::new(
            vec(0.0, 0.0, -1.0),
            fixed(0.5),
            Surface::Lambertian(Lambertian { albedo: vec(0.8, 0.3, 0.3) }),
        ),
        Sphere::new(
            vec(0.0, -100.5, -1.0),
            fixed(100.0),
            Surface::Lambertian(Lambertian { albedo: vec(0.8, 0.8, 0.0) }),
        ),
        Sphere::new(
            vec(1.0, 0.0, -1.0),
            fixed(0.5),
            Surface::Metal(Metal::new(vec(0.8, 0.6, 0.2), fixed(0.3))),
        ),
        Sphere::new(
            vec(-1.0, 0.0, -1.0),
            fixed(0.5),
            Surface::Dielectric(Dielectric { ref_idx: fixed(1.5) }),
        ),
    ]
}

#[test]
fn a_byte_is_the_whole_part_within_its_range() {
    assert_eq!(to_byte(fixed(17.9)), 17);
    assert_eq!(to_byte(Real::zero()), 0);
    assert_eq!(to_byte(fixed(255.0)), 255);
    assert_eq!(to_byte(fixed(255.999)), 255);
    assert_eq!(to_byte(fixed(256.0)), 255);
    assert_eq!(to_byte(fixed(300.0)), 255);
    assert_eq!(to_byte(Real::max_value()), 255);
    assert_eq!(to_byte(fixed(-0.5)), 0);
    assert_eq!(to_byte(fixed(-3.0)), 0);
    assert_eq!(to_byte(Real::from_raw(i64::MIN)), 0);
}

#[test]
fn a_channel_is_quantized_by_255_99() {
    assert_eq!(quantize(Real::one()), 255);
    assert_eq!(quantize(fixed(0.5)), 127);
    assert_eq!(quantize(Real::from_ratio(7, 10)), 179);
    assert_eq!(quantize(Real::zero()), 0);
    assert_eq!(quantize(fixed(0.0039)), 0);
    assert_eq!(quantize(fixed(0.004)), 1);
    assert_eq!(quantize(fixed(2.0)), 255);
    assert_eq!(quantize(fixed(-1.0)), 0);
}

#[test]
fn a_pixel_is_the_root_of_the_mean() {
    assert_eq!(shade(vec(4.0, 1.0, 0.0), 4), (255, 127, 0));
    assert_eq!(shade(vec(1.0, 0.25, 0.0), 1), (255, 127, 0));
    assert_eq!(shade(vec(100.0, 49.0, 1.0), 100), (255, 179, 25));
    assert_eq!(shade(vec(1.0, 1.0, 1.0), 0), (255, 255, 255));
    assert_eq!(shade(Vec3::zero(), 0), (0, 0, 0));
}

#[test]
fn the_sky_is_blue_above_and_white_below() {
    let up = Ray::new(Vec3::zero(), vec(0.0, 1.0, 0.0));
    let down = Ray::new(Vec3::zero(), vec(0.0, -1.0, 0.0));
    let level = Ray::new(Vec3::zero(), vec(1.0, 0.0, 0.0));
    assert_eq!(sky(up), Vec3::new(fixed(0.5), Real::from_ratio(7, 10), Real::one()));
    assert_eq!(bytes(sky(up)), (127, 179, 255));
    assert_eq!(sky(down), vec(1.0, 1.0, 1.0));
    assert_eq!(bytes(sky(down)), (255, 255, 255));
    let between = sky(level);
    assert!((float(between.x) - 0.75).abs() < 1e-8);
    assert!((float(between.y) - 0.85).abs() < 1e-8);
    assert_eq!(between.z, Real::one());
}

#[test]
fn a_ray_that_hits_nothing_has_the_colour_of_the_sky() {
    let empty: HitableList = Vec::new();
    let behind: HitableList = vec![mirror(5.0)];
    let up = Ray::new(Vec3::zero(), vec(0.0, 1.0, 0.0));
    let down = Ray::new(Vec3::zero(), vec(0.0, -1.0, 0.0));
    for world in [&empty, &behind] {
        for depth in [0, 1, 50] {
            let mut rng = Sampler::new(1, 2);
            assert_eq!(bytes(color(&up, world, depth, 50, &mut rng)), (127, 179, 255));
            assert_eq!(bytes(color(&down, world, depth, 50, &mut rng)), (255, 255, 255));
            assert_eq!(rng, Sampler::new(1, 2));
        }
    }
}

#[test]
fn two_mirrors_end_in_black_at_the_depth_limit() {
    let world: HitableList = vec![mirror(-2.0), mirror(2.0)];
    let r = Ray::new(Vec3::zero(), vec(0.0, 0.0, -1.0));
    for max_depth in [0, 1, 2, 7, 50, 500] {
        let mut rng = Sampler::new(0, 0);
        assert_eq!(color(&r, &world, 0, max_depth, &mut rng), Vec3::zero());
        assert_eq!(rng.counter % 3, 0);
        assert!(rng.counter >= 3 * (max_depth as u64 + 1));
    }
}

#[test]
fn a_single_mirror_shows_the_sky() {
    let world: HitableList = vec![mirror(-2.0)];
    let r = Ray::new(Vec3::zero(), vec(0.0, 0.0, -1.0));
    let mut rng = Sampler::new(0, 0);
    let back = Ray::new(vec(0.0, 0.0, -1.0), vec(0.0, 0.0, 1.0));
    assert_eq!(color(&r, &world, 0, 50, &mut rng), sky(back));
    let mut rng = Sampler::new(0, 0);
    assert_eq!(color(&r, &world, 0, 0, &mut rng), Vec3::zero());
    let mut rng = Sampler::new(0, 0);
    assert_eq!(color(&r, &world, 50, 50, &mut rng), Vec3::zero());
    let mut rng = Sampler::new(0, 0);
    assert_eq!(color(&r, &world, 49, 50, &mut rng), sky(back));
}

#[test]
fn an_absorbed_ray_is_black() {
    let hollow: HitableList = vec![Sphere::new(
        Vec3::zero(),
        fixed(10.0),
        Surface::Metal(Metal::new(vec(1.0, 1.0, 1.0), Real::zero())),
    )];
    let r = Ray::new(Vec3::zero(), vec(0.0, 0.0, -1.0));
    let mut rng = Sampler::new(0, 0);
    assert_eq!(color(&r, &hollow, 0, 50, &mut rng), Vec3::zero());
}

#[test]
fn a_diffuse_bounce_attenuates_the_sky() {
    let albedo = vec(0.8, 0.3, 0.3);
    let world: HitableList = vec![Sphere::new(
        vec(0.0, 0.0, -1.0),
        fixed(0.5),
        Surface::Lambertian(Lambertian { albedo }),
    )];
    let r = Ray::new(Vec3::zero(), vec(0.0, 0.0, -1.0));
    for seed in 0..50 {
        let mut rng = Sampler::new(seed, 0);
        let c = color(&r, &world, 0, 1, &mut rng);
        let mut shadow = Sampler::new(seed, 0);
        let lambertian = Lambertian { albedo };
        let (attenuation, scattered) = lambertian.scatter_with(
            vec(0.0, 0.0, -0.5),
            vec(0.0, 0.0, 1.0),
            ray_tracer::sampler::random_in_unit_sphere(&mut shadow),
        );
        let expected = match world.hit(&scattered, fixed(0.001), Real::max_value()) {
            Some(_) => Vec3::zero(),
            None => attenuation * sky(scattered),
        };
        assert_eq!(c, expected);
    }
}

#[test]
fn the_centre_of_a_sphere_faces_the_camera() {
    let world: HitableList = vec![Sphere::new(
        Vec3::zero(),
        fixed(0.5),
        Surface::Lambertian(Lambertian { albedo: vec(0.5, 0.5, 0.5) }),
    )];
    let cam = Camera::viewport(
        vec(0.0, 0.0, 2.0),
        Vec3::zero(),
        vec(0.0, 1.0, 0.0),
        fixed(0.5),
        Real::one(),
        Real::zero(),
        fixed(2.0),
    );
    let r = cam.get_ray_through(fixed(0.5), fixed(0.5), Vec3::zero());
    assert_eq!(r, Ray::new(vec(0.0, 0.0, 2.0), vec(0.0, 0.0, -1.0)));
    let rec = world.hit(&r, fixed(0.001), Real::max_value()).unwrap();
    assert_eq!(rec.normal, vec(0.0, 0.0, 1.0));
    let shaded = fixed(0.5) * (rec.normal + vec(1.0, 1.0, 1.0));
    assert_eq!(shaded, vec(0.5, 0.5, 1.0));
    let mut rng = Sampler::new(0, 0);
    assert_eq!(color(&r, &world, 0, 0, &mut rng), Vec3::zero());
}

#[test]
fn a_sample_goes_through_its_pixel() {
    let empty: HitableList = Vec::new();
    let cam = Camera::new();
    for seed in 0..20 {
        let mut rng = Sampler::new(seed, 0);
        let mut shadow = rng;
        let c = sample(&empty, &cam, 3, 1, 4, 2, 50, &mut rng);
        let a = shadow.next_unit();
        let b = shadow.next_unit();
        let u = (Real::from_u32(3) + a) / Real::from_u32(4);
        let v = (Real::from_u32(1) + b) / Real::from_u32(2);
        assert!(u.ge(fixed(0.75)) && u.lt(Real::one()));
        assert!(v.ge(fixed(0.5)) && v.lt(Real::one()));
        let r = cam.get_ray(u, v, &mut shadow);
        assert_eq!(c, sky(r));
        assert_eq!(rng, shadow);
    }
}

#[test]
fn a_pixel_has_a_stream_of_its_own() {
    let world = small_world();
    let cam = Camera::new();
    let (x, y, width, height, n) = (2u32, 1u32, 4u32, 3u32, 5u32);
    let rgb = render_pixel(&world, &cam, x, y, width, height, n, 10, 77);
    let mut rng = Sampler::new(77, 6);
    let mut sum = Vec3::zero();
    for _ in 0..n {
        sum.add_assign(sample(&world, &cam, x, y, width, height, 10, &mut rng));
    }
    assert_eq!(rgb, shade(sum, n));
}

#[test]
fn an_image_holds_its_pixels_row_by_row() {
    let world = small_world();
    let cam = Camera::new();
    let (width, height) = (5u32, 3u32);
    let image = render(&world, &cam, width, height, 2, 8, 2024);
    assert_eq!(image.len(), 45);
    for y in 0..height {
        for x in 0..width {
            let at = 3 * (y * width + x) as usize;
            let rgb = render_pixel(&world, &cam, x, y, width, height, 2, 8, 2024);
            assert_eq!((image[at], image[at + 1], image[at + 2]), rgb);
        }
    }
}

#[test]
fn equal_renders_give_equal_images() {
    let world = small_world();
    let cam = Camera::viewport(
        vec(3.0, 1.0, 2.0),
        vec(0.0, 0.0, -1.0),
        vec(0.0, 1.0, 0.0),
        fixed(0.4),
        fixed(2.0),
        fixed(0.2),
        fixed(3.5),
    );
    let first = render(&world, &cam, 8, 4, 3, 50, 5);
    let second = render(&world, &cam, 8, 4, 3, 50, 5);
    assert_eq!(first, second);
    assert_eq!(first.len(), 96);
    let other = render(&world, &cam, 8, 4, 3, 50, 6);
    assert_eq!(other.len(), 96);
    assert_ne!(first, other);
}

#[test]
fn an_image_without_pixels_is_empty() {
    let world = small_world();
    let cam = Camera::new();
    assert!(render(&world, &cam, 0, 7, 3, 50, 1).is_empty());
    assert!(render(&world, &cam, 7, 0, 3, 50, 1).is_empty());
}

#[test]
fn an_empty_scene_renders_as_sky() {
    let empty: HitableList = Vec::new();
    let cam = Camera::new();
    let image = render(&empty, &cam, 4, 4, 4, 50, 0);
    for pixel in image.chunks(3) {
        assert_eq!(pixel[2], 255);
        assert!(pixel[0] >= 180 && pixel[0] <= pixel[1] && pixel[1] <= 255);
    }
    let top = image[0];
    let bottom = image[3 * 12];
    assert!(top < bottom);
}
