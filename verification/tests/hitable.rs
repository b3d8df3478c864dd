use ray_tracer::hitable::Hitable;
use ray_tracer::hitable::HitableList;
use ray_tracer::hitable::Sphere;
use ray_tracer::material::Dielectric;
use ray_tracer::material::Lambertian;
use ray_tracer::material::Surface;
use ray_tracer::ray::Ray;
use ray_tracer::scalar::Real;
use ray_tracer::vec3::Vec3;

/// The fixed-point number nearest to `x`.
fn fixed(x: f64) -> Real {
    Real::from_raw((x * 4294967296.0).round() as i64)
}

fn float(r: Real) -> f64 {
    r.raw as f64 / 4294967296.0
}

fn vec(x: f64, y: f64, z: f64) -> Vec3 {
    Vec3::new(fixed(x), fixed(y), fixed(z))
}

fn grey() -> Surface {
    Surface::Lambertian(Lambertian { albedo: vec(0.5, 0.5, 0.5) })
}

fn glass() -> Surface {
    Surface::Dielectric(Dielectric { ref_idx: fixed(1.5) })
}

fn ball(z: f64) -> Sphere {
    Sphere::new(vec(0.0, 0.0, z), fixed(0.5), grey())
}

fn forward() -> Ray {
    Ray::new(Vec3::zero(), vec(0.0, 0.0, -1.0))
}

#[test]
fn a_sphere_keeps_what_it_was_made_of() {
    let s = Sphere::new(vec(1.0, 2.0, 3.0), fixed(4.0), glass());
    assert_eq!(s.center, vec(1.0, 2.0, 3.0));
    assert_eq!(s.radius, fixed(4.0));
    assert_eq!(s.mat, glass());
    assert_eq!(*Sphere::boxed(vec(1.0, 2.0, 3.0), fixed(4.0), glass()), s);
}

#[test]
fn a_ray_meets_a_sphere_at_its_two_roots() {
    let roots = ball(-1.0).roots(&forward()).unwrap();
    assert_eq!(roots.near, fixed(0.5));
    assert_eq!(roots.far, fixed(1.5));
    assert!(ball(-1.0).roots(&Ray::new(Vec3::zero(), vec(0.0, 1.0, 0.0))).is_none());
}

#[test]
fn a_hit_from_outside_is_at_the_nearer_root() {
    let rec = ball(-1.0).hit(&forward(), fixed(0.001), Real::max_value()).unwrap();
    assert_eq!(rec.t, fixed(0.5));
    assert_eq!(rec.p, vec(0.0, 0.0, -0.5));
    assert_eq!(rec.normal, vec(0.0, 0.0, 1.0));
    assert_eq!(rec.mat, grey());
}

#[test]
fn a_hit_from_inside_is_at_the_farther_root() {
    let r = Ray::new(vec(0.0, 0.0, -1.0), vec(0.0, 0.0, -1.0));
    let rec = ball(-1.0).hit(&r, fixed(0.001), Real::max_value()).unwrap();
    assert_eq!(rec.t, fixed(0.5));
    assert_eq!(rec.p, vec(0.0, 0.0, -1.5));
    assert_eq!(rec.normal, vec(0.0, 0.0, -1.0));
}

#[test]
fn the_limits_are_strict() {
    let s = ball(-1.0);
    let r = forward();
    assert!(s.hit(&r, fixed(0.001), fixed(0.5)).is_none());
    assert!(s.hit(&r, fixed(0.001), fixed(0.4)).is_none());
    assert_eq!(s.hit(&r, fixed(0.001), fixed(0.6)).unwrap().t, fixed(0.5));
    let far = s.hit(&r, fixed(0.5), Real::max_value()).unwrap();
    assert_eq!(far.t, fixed(1.5));
    assert_eq!(far.normal, vec(0.0, 0.0, -1.0));
    assert!(s.hit(&r, fixed(0.5), fixed(1.5)).is_none());
    assert!(s.hit(&r, fixed(1.5), Real::max_value()).is_none());
}

#[test]
fn a_ray_that_passes_by_or_only_touches_hits_nothing() {
    let s = ball(-1.0);
    let up = Ray::new(Vec3::zero(), vec(0.0, 1.0, 0.0));
    assert!(s.hit(&up, fixed(0.001), Real::max_value()).is_none());
    let behind = Ray::new(Vec3::zero(), vec(0.0, 0.0, 1.0));
    assert!(s.hit(&behind, fixed(0.001), Real::max_value()).is_none());
    let touching = Ray::new(vec(0.5, 0.0, 0.0), vec(0.0, 0.0, -1.0));
    assert!(s.hit(&touching, fixed(0.001), Real::max_value()).is_none());
}

#[test]
fn a_hit_lies_on_the_sphere_and_its_normal_has_unit_length() {
    let spheres = [
        Sphere::new(vec(0.0, 0.0, -1.0), fixed(0.5), grey()),
        Sphere::new(vec(0.3, -0.2, -4.0), fixed(1.25), grey()),
        Sphere::new(vec(0.0, -1000.0, 0.0), fixed(1000.0), grey()),
        Sphere::new(vec(-2.0, 1.0, 3.0), fixed(2.0), grey()),
    ];
    let origins = [vec(0.0, 0.0, 0.0), vec(13.0, 2.0, 3.0), vec(-0.5, 0.25, 1.0)];
    let mut hits = 0;
    for s in spheres.iter() {
        for o in origins.iter() {
            for i in -6..=6 {
                for j in -6..=6 {
                    let target = s.center + vec(i as f64 * 0.15, j as f64 * 0.15, 0.1)
                        * s.radius;
                    let r = Ray::new(*o, target - *o);
                    if let Some(rec) = s.hit(&r, fixed(0.001), Real::max_value()) {
                        hits += 1;
                        let radius = float(s.radius);
                        let off = rec.p - s.center;
                        assert!((float(off.length()) - radius).abs() <= 1e-5 * radius.max(1.0));
                        assert_eq!(rec.normal, off / s.radius);
                        assert!((float(rec.normal.length()) - 1.0).abs() <= 1e-5);
                        assert_eq!(rec.p, r.point_at_parameter(rec.t));
                        assert!(rec.t.gt(fixed(0.001)));
                    }
                }
            }
        }
    }
    assert!(hits > 500);
}

#[test]
fn the_nearest_sphere_wins_in_any_order() {
    let near = ball(-1.0);
    let far = Sphere::new(vec(0.0, 0.0, -3.0), fixed(0.5), glass());
    let aside = Sphere::new(vec(5.0, 0.0, -2.0), fixed(0.5), glass());
    let orders: [HitableList; 6] = [
        vec![near, far, aside],
        vec![near, aside, far],
        vec![far, near, aside],
        vec![far, aside, near],
        vec![aside, near, far],
        vec![aside, far, near],
    ];
    for world in orders.iter() {
        let rec = world.hit(&forward(), fixed(0.001), Real::max_value()).unwrap();
        assert_eq!(rec.t, fixed(0.5));
        assert_eq!(rec.mat, grey());
        assert_eq!(Some(rec), near.hit(&forward(), fixed(0.001), Real::max_value()));
    }
}

#[test]
fn spheres_that_are_missed_change_nothing() {
    let hit_a = ball(-1.0);
    let hit_b = Sphere::new(vec(0.0, 0.1, -2.0), fixed(0.75), glass());
    let miss_a = Sphere::new(vec(5.0, 0.0, -2.0), fixed(0.5), glass());
    let miss_b = Sphere::new(vec(0.0, 0.0, 4.0), fixed(1.0), grey());
    let bare: HitableList = vec![hit_a, hit_b];
    let expected = bare.hit(&forward(), fixed(0.001), Real::max_value());
    assert!(expected.is_some());
    let mixed: [HitableList; 4] = [
        vec![miss_a, hit_a, hit_b],
        vec![hit_a, miss_b, hit_b, miss_a],
        vec![miss_b, miss_a, hit_a, hit_b],
        vec![hit_a, hit_b, miss_a, miss_b],
    ];
    for world in mixed.iter() {
        assert_eq!(world.hit(&forward(), fixed(0.001), Real::max_value()), expected);
    }
}

#[test]
fn of_two_spheres_at_one_distance_the_first_wins() {
    let a = Sphere::new(vec(0.0, 0.0, -1.0), fixed(0.5), grey());
    let b = Sphere::new(vec(0.0, 0.0, -1.0), fixed(0.5), glass());
    let ab: HitableList = vec![a, b];
    let ba: HitableList = vec![b, a];
    assert_eq!(ab.hit(&forward(), fixed(0.001), Real::max_value()).unwrap().mat, grey());
    assert_eq!(ba.hit(&forward(), fixed(0.001), Real::max_value()).unwrap().mat, glass());
}

#[test]
fn an_empty_list_is_never_hit() {
    let world: HitableList = Vec::new();
    assert!(world.hit(&forward(), fixed(0.001), Real::max_value()).is_none());
    let missed: HitableList = vec![ball(3.0)];
    assert!(missed.hit(&forward(), fixed(0.001), Real::max_value()).is_none());
}

#[test]
fn the_far_limit_holds_for_a_list() {
    let world: HitableList = vec![ball(-3.0), ball(-1.0)];
    assert_eq!(world.hit(&forward(), fixed(0.001), fixed(3.0)).unwrap().t, fixed(0.5));
    assert_eq!(world.hit(&forward(), fixed(1.0), fixed(3.0)).unwrap().t, fixed(1.5));
    assert_eq!(world.hit(&forward(), fixed(2.0), fixed(3.0)).unwrap().t, fixed(2.5));
    assert!(world.hit(&forward(), fixed(0.001), fixed(0.25)).is_none());
}

fn exact_length_squared(v: Vec3) -> i128 {
    let (x, y, z) = (v.x.raw as i128, v.y.raw as i128, v.z.raw as i128);
    x * x + y * y + z * z
}

#[test]
fn rounding_moves_a_hit_from_the_sphere_by_less_than_the_stated_bound() {
    let scale = 1i128 << 32;
    let spheres = [
        Sphere::new(vec(0.0, 0.0, -1.0), fixed(0.5), grey()),
        Sphere::new(vec(0.3, -0.2, -4.0), fixed(1.25), grey()),
        Sphere::new(vec(-2.0, 1.0, 3.0), fixed(2.0), grey()),
        Sphere::new(vec(5.0, -7.0, 9.0), fixed(0.001), grey()),
        Sphere::new(vec(-15.0, 15.0, -15.0), fixed(16.0), grey()),
        Sphere::new(vec(0.0, -1000.0, 0.0), fixed(1000.0), grey()),
        Sphere::new(vec(-3000.0, 2000.0, 4000.0), fixed(8000.0), grey()),
    ];
    let origins = [
        vec(0.0, 0.0, 0.0),
        vec(13.0, 2.0, 3.0),
        vec(-0.5, 0.25, 1.0),
        vec(16.0, 16.0, 16.0),
        vec(4000.0, -3000.0, -4000.0),
    ];
    let mut hits = 0;
    for s in spheres.iter() {
        let radius = s.radius.raw as i128;
        for o in origins.iter() {
            let off = *o - s.center;
            let mut bound = scale.max(radius);
            for c in [off.x, off.y, off.z] {
                bound = bound.max((c.raw as i128).abs());
            }
            assert!(bound <= 1i128 << 45);
            assert!(bound <= (1i128 << 41) * radius);
            for i in -7..=7 {
                for j in -7..=7 {
                    let aim = s.center + vec(i as f64 * 0.14, j as f64 * 0.14, 0.05) * s.radius;
                    let r = Ray::new(*o, aim - *o);
                    assert!((exact_length_squared(r.direction()) - scale * scale).abs() <= 8 * scale);
                    for t_min in [fixed(0.001), fixed(2.0)] {
                        if let Some(rec) = s.hit(&r, t_min, Real::max_value()) {
                            hits += 1;
                            let off = exact_length_squared(rec.p - s.center) - radius * radius;
                            assert!(scale * off.abs() <= 600 * bound * bound);
                            let long = exact_length_squared(rec.normal) - scale * scale;
                            let lhs = (radius * radius) as f64 * long.abs() as f64;
                            let rhs = 700.0 * scale as f64 * (bound * bound) as f64;
                            assert!(lhs <= rhs);
                            if bound <= 16 * radius {
                                assert!((float(rec.normal.length()) - 1.0).abs() <= 1e-6);
                            }
                            let reach = float(s.radius) + bound as f64 / scale as f64 + 1.0;
                            let away = float((rec.p - s.center).length()) - float(s.radius);
                            assert!(away.abs() <= 1e-4 * reach);
                        }
                    }
                }
            }
        }
    }
    assert!(hits > 1500);
}

#[test]
fn a_ray_without_a_direction_hits_nothing() {
    let still = Ray::new(Vec3::zero(), Vec3::zero());
    assert_eq!(still.direction(), Vec3::zero());
    assert!(ball(-1.0).roots(&still).is_none());
    assert!(ball(-1.0).hit(&still, fixed(0.001), Real::max_value()).is_none());
    assert!(ball(0.0).hit(&still, fixed(0.001), Real::max_value()).is_none());
    let world: HitableList = vec![ball(0.0), ball(-1.0)];
    assert!(world.hit(&still, fixed(0.001), Real::max_value()).is_none());
}

#[test]
fn a_sphere_without_a_radius_is_never_hit() {
    let point = Sphere::new(vec(0.0, 0.0, -1.0), Real::zero(), grey());
    assert!(point.hit(&forward(), fixed(0.001), Real::max_value()).is_none());
}
