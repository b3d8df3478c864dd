use ray_tracer::material::reflect;
use ray_tracer::material::refract;
use ray_tracer::material::schlick;
use ray_tracer::material::Dielectric;
use ray_tracer::material::Lambertian;
use ray_tracer::material::Material;
use ray_tracer::material::Metal;
use ray_tracer::material::Surface;
use ray_tracer::ray::Ray;
use ray_tracer::sampler::random_in_unit_sphere;
use ray_tracer::sampler::Sampler;
use ray_tracer::scalar::Real;
use ray_tracer::vec3::Vec3;

/// The fixed-point number nearest to `x`.
fn fixed(x: f64) -> Real {
    Real::from_raw((x * 4294967296.0).round() as i64)
}

fn float(r: Real) -> f64 {
    r.raw as f64 / 4294967296.0
}

fn vec(x: f64, y: f64, z: f64) -> Vec3 {
    Vec3::new(fixed(x), fixed(y), fixed(z))
}

fn exact_length_squared(v: Vec3) -> i128 {
    let (x, y, z) = (v.x.raw as i128, v.y.raw as i128, v.z.raw as i128);
    x * x + y * y + z * z
}

fn white() -> Vec3 {
    vec(1.0, 1.0, 1.0)
}

#[test]
fn a_reflection_flips_the_part_along_the_normal() {
    assert_eq!(reflect(vec(1.0, -1.0, 0.0), vec(0.0, 1.0, 0.0)), vec(1.0, 1.0, 0.0));
    assert_eq!(reflect(vec(0.0, 0.0, -1.0), vec(0.0, 0.0, 1.0)), vec(0.0, 0.0, 1.0));
    assert_eq!(reflect(vec(1.0, 0.0, 0.0), vec(0.0, 1.0, 0.0)), vec(1.0, 0.0, 0.0));
}

#[test]
fn a_reflection_keeps_the_size_of_the_part_along_the_normal() {
    let directions = [
        vec(1.0, -2.0, 0.5),
        vec(-0.3, -0.9, 0.1),
        vec(0.0, -1.0, 0.0),
        vec(5.0, 0.1, -7.0),
        vec(-1.0, -1.0, -1.0),
    ];
    let normals = [vec(0.3, 1.0, -0.2), vec(0.0, 1.0, 0.0), vec(-1.0, 0.5, 2.0), vec(1.0, 1.0, 1.0)];
    for d in directions.iter() {
        for n in normals.iter() {
            let d = d.unit_vec();
            let n = n.unit_vec();
            assert!(exact_length_squared(d) <= (1i128 << 64) + (8i128 << 32));
            assert!((exact_length_squared(n) - (1i128 << 64)).abs() <= 8i128 << 32);
            let before = d.dot(n);
            let after = reflect(d, n).dot(n);
            assert!((after.raw + before.raw).abs() <= 25);
        }
    }
}

#[test]
fn a_ray_along_the_normal_goes_straight_through() {
    let out = refract(vec(0.0, -1.0, 0.0), vec(0.0, 1.0, 0.0), Real::one());
    assert_eq!(out, Some(vec(0.0, -1.0, 0.0)));
    let slowed = refract(vec(0.0, -3.0, 0.0), vec(0.0, 1.0, 0.0), fixed(0.5));
    assert_eq!(slowed, Some(vec(0.0, -1.0, 0.0)));
}

#[test]
fn a_refracted_ray_obeys_snell() {
    let v = vec(1.0, -1.0, 0.0);
    let n = vec(0.0, 1.0, 0.0);
    let ratio = 1.0 / 1.5;
    let out = refract(v, n, fixed(ratio)).unwrap();
    let sin_in = (0.5f64).sqrt();
    let sin_out = float(out.x) / float(out.length());
    assert!((sin_out - ratio * sin_in).abs() < 1e-6);
    assert!(float(out.y) < 0.0);
    assert_eq!(out.z, Real::zero());
}

#[test]
fn a_shallow_ray_cannot_leave_the_denser_medium() {
    assert_eq!(refract(vec(1.0, -0.1, 0.0), vec(0.0, 1.0, 0.0), fixed(1.5)), None);
    assert!(refract(vec(1.0, -0.1, 0.0), vec(0.0, 1.0, 0.0), fixed(0.5)).is_some());
}

#[test]
fn the_reflectance_rises_toward_grazing_angles() {
    let index = fixed(1.5);
    assert_eq!(schlick(Real::zero(), index), Real::one());
    let head_on = schlick(Real::one(), index);
    assert!((float(head_on) - 0.04).abs() < 1e-8);
    let q = (Real::one() - index) / (Real::one() + index);
    assert_eq!(head_on, q * q);
    let half = schlick(fixed(0.5), index);
    assert!((float(half) - (0.04 + 0.96 * 0.03125)).abs() < 1e-8);
    assert!(head_on.lt(half) && half.lt(Real::one()));
}

#[test]
fn a_diffuse_surface_scatters_about_the_normal() {
    let m = Lambertian { albedo: vec(0.8, 0.3, 0.3) };
    let point = vec(1.0, 2.0, 3.0);
    let (attenuation, scattered) = m.scatter_with(point, vec(0.0, 1.0, 0.0), Vec3::zero());
    assert_eq!(attenuation, vec(0.8, 0.3, 0.3));
    assert_eq!(scattered.origin(), point);
    assert_eq!(scattered.direction(), vec(0.0, 1.0, 0.0));
    let (_, tilted) = m.scatter_with(point, vec(0.0, 1.0, 0.0), vec(0.75, 0.0, 0.0));
    assert_eq!(tilted.direction().x.raw, 2576980377);
    assert_eq!(tilted.direction().y.raw, 3435973836);
}

#[test]
fn a_diffuse_surface_always_scatters() {
    let m = Lambertian { albedo: vec(0.8, 0.3, 0.3) };
    let r_in = Ray::new(vec(0.0, 5.0, 0.0), vec(0.0, -1.0, 0.0));
    let mut rng = Sampler::new(4, 0);
    for _ in 0..200 {
        let mut shadow = rng;
        let out = m.scatter(&r_in, Vec3::zero(), vec(0.0, 1.0, 0.0), &mut rng);
        let sample = random_in_unit_sphere(&mut shadow);
        assert_eq!(out, Some(m.scatter_with(Vec3::zero(), vec(0.0, 1.0, 0.0), sample)));
        assert_eq!(rng, shadow);
    }
}

#[test]
fn the_roughness_of_a_metal_is_at_most_one() {
    assert_eq!(Metal::new(white(), fixed(3.0)).fuzz, Real::one());
    assert_eq!(Metal::new(white(), fixed(0.25)).fuzz, fixed(0.25));
    assert_eq!(Metal::new(white(), Real::one()).fuzz, Real::one());
    assert_eq!(Metal::new(vec(0.1, 0.2, 0.3), Real::zero()).albedo, vec(0.1, 0.2, 0.3));
    assert_eq!(*Metal::boxed(white(), fixed(3.0)), Metal::new(white(), fixed(3.0)));
}

#[test]
fn a_polished_metal_reflects_exactly() {
    let m = Metal::new(vec(0.7, 0.6, 0.5), Real::zero());
    let r_in = Ray::new(vec(-1.0, 1.0, 0.0), vec(1.0, -1.0, 0.0));
    let normal = vec(0.0, 1.0, 0.0);
    let mirrored = Ray::new(Vec3::zero(), reflect(r_in.direction().unit_vec(), normal));
    let samples = [Vec3::zero(), vec(0.5, 0.5, 0.5), vec(-0.9, 0.1, 0.3), vec(0.0, -0.99, 0.0)];
    for sample in samples.iter() {
        let out = m.scatter_with(&r_in, Vec3::zero(), normal, *sample);
        assert_eq!(out, Some((vec(0.7, 0.6, 0.5), mirrored)));
    }
    let mut rng = Sampler::new(8, 8);
    for _ in 0..50 {
        let out = m.scatter(&r_in, Vec3::zero(), normal, &mut rng);
        assert_eq!(out, Some((vec(0.7, 0.6, 0.5), mirrored)));
    }
    let d = mirrored.direction();
    assert!((float(d.x) - (0.5f64).sqrt()).abs() < 1e-8);
    assert!((float(d.y) - (0.5f64).sqrt()).abs() < 1e-8);
    assert_eq!(d.z, Real::zero());
}

#[test]
fn a_rough_metal_moves_the_reflection() {
    let m = Metal::new(white(), fixed(0.5));
    let r_in = Ray::new(vec(0.0, 1.0, 0.0), vec(0.0, -1.0, 0.0));
    let normal = vec(0.0, 1.0, 0.0);
    let (_, scattered) = m.scatter_with(&r_in, Vec3::zero(), normal, vec(0.5, 0.0, 0.0)).unwrap();
    assert_eq!(scattered.direction(), vec(0.25, 1.0, 0.0).unit_vec());
}

#[test]
fn a_metal_absorbs_what_would_go_into_it() {
    let m = Metal::new(white(), Real::one());
    let normal = vec(0.0, 1.0, 0.0);
    let leaving = Ray::new(Vec3::zero(), vec(0.0, 1.0, 0.0));
    assert_eq!(m.scatter_with(&leaving, Vec3::zero(), normal, Vec3::zero()), None);
    let grazing = Ray::new(vec(-1.0, 0.1, 0.0), vec(1.0, -0.1, 0.0));
    assert_eq!(m.scatter_with(&grazing, Vec3::zero(), normal, vec(0.0, -0.9, 0.0)), None);
    assert!(m.scatter_with(&grazing, Vec3::zero(), normal, vec(0.0, 0.9, 0.0)).is_some());
}

#[test]
fn glass_reflects_or_refracts_by_the_draw() {
    let m = Dielectric { ref_idx: fixed(1.5) };
    let r_in = Ray::new(vec(0.0, 1.0, 0.0), vec(0.0, -1.0, 0.0));
    let normal = vec(0.0, 1.0, 0.0);
    assert_eq!(m.direction_with(&r_in, normal, fixed(0.5)), vec(0.0, -1.0, 0.0));
    assert_eq!(m.direction_with(&r_in, normal, Real::zero()), vec(0.0, 1.0, 0.0));
    let (attenuation, scattered) = m.scatter_with(&r_in, Vec3::zero(), normal, fixed(0.5));
    assert_eq!(attenuation, white());
    assert_eq!(scattered, Ray::new(Vec3::zero(), vec(0.0, -1.0, 0.0)));
}

#[test]
fn glass_reflects_where_it_cannot_refract() {
    let m = Dielectric { ref_idx: fixed(1.5) };
    let normal = vec(0.0, 1.0, 0.0);
    let inside = Ray::new(vec(-1.0, -0.1, 0.0), vec(1.0, 0.1, 0.0));
    let expected = reflect(inside.direction(), normal);
    for draw in [0.0, 0.25, 0.5, 0.999] {
        assert_eq!(m.direction_with(&inside, normal, fixed(draw)), expected);
    }
}

#[test]
fn glass_always_scatters_after_one_draw() {
    let m = Dielectric { ref_idx: fixed(1.5) };
    let r_in = Ray::new(vec(-1.0, 1.0, 0.0), vec(1.0, -1.0, 0.0));
    let normal = vec(0.0, 1.0, 0.0);
    let mut rng = Sampler::new(6, 2);
    let mut reflected = 0;
    let mut refracted = 0;
    for _ in 0..400 {
        let mut shadow = rng;
        let out = m.scatter(&r_in, Vec3::zero(), normal, &mut rng).unwrap();
        let draw = shadow.next_unit();
        assert_eq!(out, m.scatter_with(&r_in, Vec3::zero(), normal, draw));
        assert_eq!(rng, shadow);
        assert_eq!(out.0, white());
        if out.1.direction().y.gt(Real::zero()) {
            reflected += 1;
        } else {
            refracted += 1;
        }
    }
    assert!(reflected > 0 && refracted > reflected);
}

#[test]
fn a_surface_scatters_as_its_material_does() {
    let r_in = Ray::new(vec(-1.0, 1.0, 0.0), vec(1.0, -1.0, 0.0));
    let normal = vec(0.0, 1.0, 0.0);
    let diffuse = Lambertian { albedo: vec(0.1, 0.2, 0.3) };
    let metal = Metal::new(vec(0.4, 0.5, 0.6), fixed(0.3));
    let glass = Dielectric { ref_idx: fixed(1.5) };
    for seed in 0..20 {
        let mut a = Sampler::new(seed, 0);
        let mut b = a;
        assert_eq!(
            Surface::Lambertian(diffuse).scatter(&r_in, Vec3::zero(), normal, &mut a),
            diffuse.scatter(&r_in, Vec3::zero(), normal, &mut b)
        );
        assert_eq!(
            Surface::Metal(metal).scatter(&r_in, Vec3::zero(), normal, &mut a),
            metal.scatter(&r_in, Vec3::zero(), normal, &mut b)
        );
        assert_eq!(
            Surface::Dielectric(glass).scatter(&r_in, Vec3::zero(), normal, &mut a),
            glass.scatter(&r_in, Vec3::zero(), normal, &mut b)
        );
        assert_eq!(a, b);
    }
}

#[test]
fn a_reflection_is_exact_only_up_to_rounding() {
    let d = vec(1.0, -2.0, 0.5).unit_vec();
    let n = vec(0.3, 1.0, -0.2).unit_vec();
    assert_eq!(d.dot(n).raw, -3174048020);
    assert_eq!(reflect(d, n).dot(n).raw, 3174048018);
    let along = vec(0.0, -1.0, 0.0);
    let axis = vec(0.0, 1.0, 0.0);
    assert_eq!(reflect(along, axis).dot(axis), -along.dot(axis));
}

#[test]
fn glass_reflects_four_in_a_hundred_rays_that_meet_it_head_on() {
    let m = Dielectric { ref_idx: fixed(1.5) };
    let r_in = Ray::new(vec(0.0, 1.0, 0.0), vec(0.0, -1.0, 0.0));
    let normal = vec(0.0, 1.0, 0.0);
    assert_eq!(m.cosine(&r_in, normal), Real::one());
    let reflectance = schlick(m.cosine(&r_in, normal), m.ref_idx);
    assert_eq!(reflectance.raw, 171798691);
    assert!((float(reflectance) - 0.04).abs() < 1e-9);
    let up = vec(0.0, 1.0, 0.0);
    let down = vec(0.0, -1.0, 0.0);
    assert_eq!(m.direction_with(&r_in, normal, fixed(0.02)), up);
    assert_eq!(m.direction_with(&r_in, normal, fixed(0.039)), up);
    assert_eq!(m.direction_with(&r_in, normal, Real::from_raw(171798690)), up);
    assert_eq!(m.direction_with(&r_in, normal, reflectance), down);
    assert_eq!(m.direction_with(&r_in, normal, fixed(0.041)), down);
    let (attenuation, scattered) = m.scatter_with(&r_in, Vec3::zero(), normal, fixed(0.02));
    assert_eq!(attenuation, white());
    assert_eq!(scattered, Ray::new(Vec3::zero(), up));
}

#[test]
fn the_reflectance_of_glass_is_never_below_that_at_normal_incidence() {
    let m = Dielectric { ref_idx: fixed(1.5) };
    let normal = vec(0.0, 1.0, 0.0);
    let floor = schlick(Real::one(), m.ref_idx);
    for i in 0..=40 {
        let x = i as f64 * 0.25;
        let entering = Ray::new(vec(-x, 1.0, 0.0), vec(x, -1.0, 0.0));
        let c = m.cosine(&entering, normal);
        assert!(c.gt(Real::zero()) && c.le(Real::one()));
        assert!((float(c) - 1.0 / (1.0 + x * x).sqrt()).abs() < 1e-8);
        assert!(schlick(c, m.ref_idx).ge(floor));
    }
    let leaving = Ray::new(vec(0.0, -1.0, 0.0), vec(0.3, 1.0, 0.0));
    let c = m.cosine(&leaving, normal);
    assert!((float(c) - 1.5 / (1.09f64).sqrt()).abs() < 1e-8);
}

#[test]
fn a_long_vector_is_reflected_as_exactly_as_its_size_allows() {
    let scale = 1i128 << 32;
    let directions = [
        vec(1000.0, -2000.0, 500.0),
        vec(-3.0, -9.0, 1.0),
        vec(0.0, -1000000.0, 0.0),
        vec(16000000.0, 0.1, -16000000.0),
        vec(-1.5, -1.5, -1.5),
    ];
    let normals = [vec(0.3, 1.0, -0.2), vec(0.0, 1.0, 0.0), vec(-1.0, 0.5, 2.0), vec(1.0, 1.0, 1.0)];
    for d in directions.iter() {
        let mut bound = scale;
        for c in [d.x, d.y, d.z] {
            bound = bound.max((c.raw as i128).abs());
        }
        assert!(bound <= 1i128 << 56);
        for n in normals.iter() {
            let n = n.unit_vec();
            assert!((exact_length_squared(n) - scale * scale).abs() <= 8 * scale);
            let before = d.dot(n);
            let after = reflect(*d, n).dot(n);
            assert!(scale * (after.raw as i128 + before.raw as i128).abs() <= 73 * bound);
        }
    }
}

#[test]
fn a_polished_metal_returns_every_ray_that_does_not_graze_it() {
    let m = Metal::new(vec(0.9, 0.9, 0.9), Real::zero());
    let normals = [vec(0.0, 1.0, 0.0), vec(0.3, 1.0, -0.2), vec(-1.0, 0.5, 2.0)];
    let mut rng = Sampler::new(21, 0);
    let mut steep = 0;
    for n in normals.iter() {
        let n = n.unit_vec();
        for i in 0..400 {
            let sample = random_in_unit_sphere(&mut rng);
            let aim = random_in_unit_sphere(&mut rng);
            let r_in = Ray::new(vec(0.0, 0.0, 0.0), aim * fixed(4.0 + i as f64));
            let d = r_in.direction().unit_vec();
            if d.dot(n).le(Real::from_raw(-0x4_0000)) {
                steep += 1;
                let out = m.scatter_with(&r_in, Vec3::zero(), n, sample);
                assert_eq!(out, Some((vec(0.9, 0.9, 0.9), Ray::new(Vec3::zero(), reflect(d, n)))));
            }
        }
    }
    assert!(steep > 300);
    let grazing = Ray::new(Vec3::zero(), vec(1.0, 0.0, 0.0));
    assert_eq!(m.scatter_with(&grazing, Vec3::zero(), vec(0.0, 1.0, 0.0), Vec3::zero()), None);
}

#[test]
fn the_reflectance_lies_between_that_at_normal_incidence_and_one() {
    for index in [0.0, 0.5, 1.0, 1.5, 2.4, 1000.0] {
        let index = fixed(index);
        let q = (Real::one() - index) / (Real::one() + index);
        let floor = q * q;
        assert_eq!(schlick(Real::one(), index), floor);
        for i in 0..=64 {
            let cosine = Real::from_raw((i as i64) << 26);
            let r = schlick(cosine, index);
            assert!(r.ge(floor) && r.le(Real::one()));
        }
    }
}
