use ray_tracer::camera::Camera;
use ray_tracer::ray::Ray;
use ray_tracer::sampler::random_in_unit_disk;
use ray_tracer::sampler::Sampler;
use ray_tracer::scalar::Real;
use ray_tracer::vec3::Vec3;

/// The fixed-point number nearest to `x`.
fn fixed(x: f64) -> Real {
    Real::from_raw((x * 4294967296.0).round() as i64)
}

fn float(r: Real) -> f64 {
    r.raw as f64 / 4294967296.0
}

fn vec(x: f64, y: f64, z: f64) -> Vec3 {
    Vec3::new(fixed(x), fixed(y), fixed(z))
}

fn close(a: Vec3, b: Vec3) -> bool {
    let d = a - b;
    float(d.x).abs() < 1e-7 && float(d.y).abs() < 1e-7 && float(d.z).abs() < 1e-7
}

#[test]
fn the_plain_camera_looks_down_the_negative_z_axis() {
    let cam = Camera::new();
    assert_eq!(cam.origin, Vec3::zero());
    assert_eq!(cam.upper_left_corner, vec(-2.0, 1.0, -1.0));
    assert_eq!(cam.horizontal, vec(4.0, 0.0, 0.0));
    assert_eq!(cam.vertical, vec(0.0, -2.0, 0.0));
    assert_eq!(cam.lens_radius, Real::zero());
    let mut rng = Sampler::new(0, 0);
    let middle = cam.get_ray(fixed(0.5), fixed(0.5), &mut rng);
    assert_eq!(middle, Ray::new(Vec3::zero(), vec(0.0, 0.0, -1.0)));
    let corner = cam.get_ray(Real::zero(), Real::zero(), &mut rng);
    assert_eq!(corner, Ray::new(Vec3::zero(), vec(-2.0, 1.0, -1.0)));
    let opposite = cam.get_ray(Real::one(), Real::one(), &mut rng);
    assert_eq!(opposite, Ray::new(Vec3::zero(), vec(2.0, -1.0, -1.0)));
}

#[test]
fn a_right_angle_of_view_at_the_origin_gives_the_plain_camera() {
    let cam = Camera::viewport(
        Vec3::zero(),
        vec(0.0, 0.0, -1.0),
        vec(0.0, 1.0, 0.0),
        Real::one(),
        fixed(2.0),
        Real::zero(),
        Real::one(),
    );
    assert_eq!(cam, Camera::new());
}

#[test]
fn the_basis_of_a_view_is_orthonormal() {
    let cam = Camera::viewport(
        vec(13.0, 2.0, 3.0),
        Vec3::zero(),
        vec(0.0, 1.0, 0.0),
        fixed((10.0f64).to_radians().tan()),
        fixed(2.0),
        fixed(0.1),
        fixed(10.0),
    );
    assert_eq!(cam.origin, vec(13.0, 2.0, 3.0));
    assert_eq!(cam.lens_radius, fixed(0.05));
    for axis in [cam.u, cam.v, cam.w] {
        assert!((float(axis.length()) - 1.0).abs() < 1e-8);
    }
    assert!(float(cam.u.dot(cam.v)).abs() < 1e-8);
    assert!(float(cam.v.dot(cam.w)).abs() < 1e-8);
    assert!(float(cam.w.dot(cam.u)).abs() < 1e-8);
    assert!(close(cam.w, vec(13.0, 2.0, 3.0).unit_vec()));
    assert_eq!(cam.u.y, Real::zero());
    assert!(float(cam.v.y) > 0.9);
}

#[test]
fn the_image_spans_the_plane_of_focus() {
    let half_height = 0.5;
    let focus = 4.0;
    let cam = Camera::viewport(
        vec(0.0, 0.0, 2.0),
        vec(0.0, 0.0, 0.0),
        vec(0.0, 1.0, 0.0),
        fixed(half_height),
        fixed(3.0),
        Real::zero(),
        fixed(focus),
    );
    assert_eq!(cam.upper_left_corner, vec(-6.0, 2.0, -2.0));
    assert_eq!(cam.horizontal, vec(12.0, 0.0, 0.0));
    assert_eq!(cam.vertical, vec(0.0, -4.0, 0.0));
    let middle = cam.get_ray_through(fixed(0.5), fixed(0.5), Vec3::zero());
    assert_eq!(middle, Ray::new(vec(0.0, 0.0, 2.0), vec(0.0, 0.0, -1.0)));
}

#[test]
fn a_pinhole_ignores_the_place_on_the_lens() {
    let cam = Camera::viewport(
        vec(3.0, 1.0, 2.0),
        vec(0.0, 0.5, 0.0),
        vec(0.0, 1.0, 0.0),
        fixed(0.4),
        fixed(1.5),
        Real::zero(),
        fixed(3.0),
    );
    let plain = cam.get_ray_through(fixed(0.3), fixed(0.8), Vec3::zero());
    for sample in [vec(0.5, 0.5, 0.0), vec(-0.9, 0.1, 0.0), vec(0.0, -0.7, 0.0)] {
        assert_eq!(cam.get_ray_through(fixed(0.3), fixed(0.8), sample), plain);
    }
    assert_eq!(plain.origin(), vec(3.0, 1.0, 2.0));
}

#[test]
fn a_lens_moves_the_origin_but_not_the_point_in_focus() {
    let cam = Camera::viewport(
        vec(0.0, 0.0, 2.0),
        vec(0.0, 0.0, 0.0),
        vec(0.0, 1.0, 0.0),
        fixed(0.5),
        fixed(1.0),
        fixed(1.0),
        fixed(2.0),
    );
    let r = cam.get_ray_through(fixed(0.5), fixed(0.5), vec(0.5, -0.5, 0.0));
    assert_eq!(r.origin(), vec(0.25, -0.25, 2.0));
    let distance = (2.0f64 * 2.0 + 0.25 * 0.25 * 2.0).sqrt();
    assert!(close(r.point_at_parameter(fixed(distance)), Vec3::zero()));
}

#[test]
fn a_ray_is_drawn_through_a_point_of_the_unit_disk() {
    let cam = Camera::viewport(
        vec(0.0, 0.0, 2.0),
        vec(0.0, 0.0, 0.0),
        vec(0.0, 1.0, 0.0),
        fixed(0.5),
        fixed(1.0),
        fixed(1.0),
        fixed(2.0),
    );
    let mut rng = Sampler::new(9, 4);
    for _ in 0..100 {
        let mut shadow = rng;
        let r = cam.get_ray(fixed(0.25), fixed(0.75), &mut rng);
        let sample = random_in_unit_disk(&mut shadow);
        assert_eq!(r, cam.get_ray_through(fixed(0.25), fixed(0.75), sample));
        assert_eq!(rng, shadow);
        let off = r.origin() - cam.origin;
        assert!(float(off.length()) < 0.5);
    }
}
