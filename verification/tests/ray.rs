use ray_tracer::ray::Ray;
use ray_tracer::scalar::Real;
use ray_tracer::vec3::Vec3;

/// The fixed-point number nearest to `x`.
fn fixed(x: f64) -> Real {
    Real::from_raw((x * 4294967296.0).round() as i64)
}

fn vec(x: f64, y: f64, z: f64) -> Vec3 {
    Vec3::new(fixed(x), fixed(y), fixed(z))
}

#[test]
fn a_new_ray_has_a_unit_direction() {
    let r = Ray::new(vec(1.0, 2.0, 3.0), vec(0.0, 0.0, -2.0));
    assert_eq!(r.origin(), vec(1.0, 2.0, 3.0));
    assert_eq!(r.direction(), vec(0.0, 0.0, -1.0));
    let s = Ray::new(Vec3::zero(), vec(3.0, 4.0, 0.0));
    assert_eq!(s.direction(), vec(3.0, 4.0, 0.0).unit_vec());
    assert!((s.direction().length().raw - Real::one().raw).abs() <= 4);
}

#[test]
fn points_along_a_ray() {
    let r = Ray::new(vec(1.0, 2.0, 3.0), vec(0.0, 0.0, -2.0));
    assert_eq!(r.point_at_parameter(fixed(2.0)), vec(1.0, 2.0, 1.0));
    assert_eq!(r.point_at_parameter(Real::zero()), vec(1.0, 2.0, 3.0));
    assert_eq!(r.point_at_parameter(fixed(-0.5)), vec(1.0, 2.0, 3.5));
}
