//! Surface materials and how they scatter light.
//!
//! A material turns an incoming ray and a hit (a point and the unit normal
//! there) into an attenuation and a scattered ray, or absorbs the ray. What a
//! material needs of chance is passed to its `scatter_with` as a value; its
//! `scatter` draws that value from a [`Sampler`] first.
use crate::ray::Ray;
use crate::sampler::random_in_unit_sphere;
use crate::sampler::spec_random_in_unit_sphere;
use crate::sampler::Sampler;
use crate::sampler::MAX_TRIES;
use crate::scalar::lemma_rounding;
use crate::scalar::lemma_sqrt_nonnegative;
use crate::scalar::lemma_tdiv_remainder;
use crate::scalar::magnitude;
use crate::scalar::mul_raw;
use crate::scalar::Real;
use crate::scalar::SCALE;
use crate::vec3::lemma_dot_self_nonnegative;
use crate::vec3::Vec3;
use std::ops::Neg;
use vstd::prelude::*;

verus! {

/// The mirror image of `v` at a surface with normal `n`: `v - 2 (v . n) n`.
pub open spec fn spec_reflect(v: Vec3, n: Vec3) -> Vec3 {
    v.spec_sub(n.spec_scale(Real::from_int(2).spec_mul(v.spec_dot(n))))
}

/// The mirror image of `v` at a surface with normal `n`: `v - 2 (v . n) n`.
#[verifier::when_used_as_spec(spec_reflect)]
pub fn reflect(v: Vec3, n: Vec3) -> (r: Vec3)
    ensures
        r == spec_reflect(v, n),
{
    v - Real::from_int(2) * v.dot(n) * n
}

/// The discriminant of Snell's law for the unit vector `uv` entering at
/// normal `n` with index ratio `ni_over_nt`: `1 - ratio^2 (1 - (uv . n)^2)`.
pub open spec fn spec_snell_discriminant(uv: Vec3, n: Vec3, ni_over_nt: Real) -> Real {
    let dt = uv.spec_dot(n);
    Real::one().spec_sub(
        ni_over_nt.spec_mul(ni_over_nt).spec_mul(Real::one().spec_sub(dt.spec_mul(dt))),
    )
}

/// The direction of `v` refracted at normal `n` with index ratio
/// `ni_over_nt`; `None` where the discriminant is not positive (total
/// internal reflection).
pub open spec fn spec_refract(v: Vec3, n: Vec3, ni_over_nt: Real) -> Option<Vec3> {
    let uv = v.spec_unit_vec();
    let dt = uv.spec_dot(n);
    let discriminant = spec_snell_discriminant(uv, n, ni_over_nt);
    if discriminant@ > 0 {
        Some(
            uv.spec_sub(n.spec_scale(dt)).spec_scale(ni_over_nt).spec_sub(
                n.spec_scale(discriminant.spec_sqrt()),
            ),
        )
    } else {
        None
    }
}

/// The direction of `v` refracted at normal `n` with index ratio
/// `ni_over_nt`; `None` on total internal reflection.
#[verifier::when_used_as_spec(spec_refract)]
pub fn refract(v: Vec3, n: Vec3, ni_over_nt: Real) -> (r: Option<Vec3>)
    ensures
        r == spec_refract(v, n, ni_over_nt),
{
    let uv = v.unit_vec();
    let dt = uv.dot(n);
    let discriminant = Real::one() - ni_over_nt * ni_over_nt * (Real::one() - dt * dt);
    if discriminant.gt(Real::zero()) {
        let refracted = ni_over_nt * (uv - n * dt) - n * discriminant.sqrt();
        Some(refracted)
    } else {
        None
    }
}

/// Schlick's approximation of the reflectance at the given cosine:
/// `r0 + (1 - r0) (1 - cosine)^5` with `r0 = ((1 - n) / (1 + n))^2`.
pub open spec fn spec_schlick(cosine: Real, ref_idx: Real) -> Real {
    let q = Real::one().spec_sub(ref_idx).spec_div(Real::one().spec_add(ref_idx));
    let r0 = q.spec_mul(q);
    r0.spec_add(Real::one().spec_sub(r0).spec_mul(Real::one().spec_sub(cosine).spec_powi(5)))
}

/// Schlick's approximation of the reflectance at the given cosine.
#[verifier::when_used_as_spec(spec_schlick)]
pub fn schlick(cosine: Real, ref_idx: Real) -> (r: Real)
    ensures
        r == spec_schlick(cosine, ref_idx),
{
    let q = (Real::one() - ref_idx) / (Real::one() + ref_idx);
    let r0 = q * q;
    r0 + (Real::one() - r0) * (Real::one() - cosine).powi(5)
}

/// The product of two numbers between zero and one lies between zero and
/// one.
pub proof fn lemma_unit_product(a: Real, b: Real)
    requires
        0 <= a@ <= SCALE,
        0 <= b@ <= SCALE,
    ensures
        0 <= a.spec_mul(b)@ <= SCALE,
{
    lemma_rounding(a@, b@);
    lemma_tdiv_remainder(a@ * b@, SCALE as int);
    assert(0 <= a@ * b@ <= SCALE * SCALE) by (nonlinear_arith)
        requires
            0 <= a@ <= SCALE,
            0 <= b@ <= SCALE,
    ;
}

/// The reflectance is lowest where the ray meets the surface head on: for
/// a cosine between zero and one and a refractive index that is not
/// negative, Schlick's reflectance is at least `r0 = ((1 - n) / (1 + n))^2`,
/// which it is at the cosine one.
pub proof fn lemma_schlick_is_least_head_on(cosine: Real, ref_idx: Real)
    requires
        0 <= cosine@ <= SCALE,
        0 <= ref_idx@,
    ensures
        ({
            let q = Real::one().spec_sub(ref_idx).spec_div(Real::one().spec_add(ref_idx));
            &&& spec_schlick(Real::one(), ref_idx) == q.spec_mul(q)
            &&& 0 <= q.spec_mul(q)@ <= SCALE
            &&& spec_schlick(cosine, ref_idx)@ >= q.spec_mul(q)@
            &&& spec_schlick(cosine, ref_idx)@ <= SCALE
        }),
{
    let s = SCALE as int;
    let num = Real::one().spec_sub(ref_idx);
    let den = Real::one().spec_add(ref_idx);
    let q = num.spec_div(den);
    assert(den@ >= s && magnitude(num@) <= den@);
    lemma_tdiv_remainder(num@ * s, den@);
    assert(magnitude(num@ * s) <= den@ * s) by (nonlinear_arith)
        requires
            magnitude(num@) <= den@,
            s > 0,
    ;
    let tq = crate::scalar::tdiv(num@ * s, den@);
    assert(magnitude(tq) <= s) by (nonlinear_arith)
        requires
            den@ > 0,
            den@ * magnitude(tq) <= den@ * s,
    ;
    assert(q@ == tq);
    let r0 = q.spec_mul(q);
    lemma_rounding(q@, q@);
    lemma_tdiv_remainder(q@ * q@, s);
    assert(0 <= q@ * q@ <= s * s) by (nonlinear_arith)
        requires
            -s <= q@ <= s,
    ;
    assert(0 <= r0@ <= s);
    let rest = Real::one().spec_sub(r0);
    let x = Real::one().spec_sub(cosine);
    reveal_with_fuel(Real::spec_powi, 6);
    let x1 = Real::one().spec_mul(x);
    lemma_unit_product(Real::one(), x);
    let x2 = x1.spec_mul(x);
    lemma_unit_product(x1, x);
    let x3 = x2.spec_mul(x);
    lemma_unit_product(x2, x);
    let x4 = x3.spec_mul(x);
    lemma_unit_product(x3, x);
    let x5 = x4.spec_mul(x);
    lemma_unit_product(x4, x);
    assert(x.spec_powi(5) == x5);
    lemma_unit_product(rest, x5);
    lemma_unit_product_is_below(rest, x5);
    let zero = Real::one().spec_sub(Real::one());
    assert(zero@ == 0);
    assert(mul_raw(s, 0) == 0 && mul_raw(0, 0) == 0) by {
        assert(s * 0 == 0 && 0 * 0 == 0) by (nonlinear_arith);
    }
    assert(zero.spec_powi(5)@ == 0);
    assert(rest.spec_mul(zero.spec_powi(5))@ == 0) by {
        assert(rest@ * 0 == 0) by (nonlinear_arith);
    }
}

/// The product of two numbers between zero and one is at most the first.
pub proof fn lemma_unit_product_is_below(a: Real, b: Real)
    requires
        0 <= a@ <= SCALE,
        0 <= b@ <= SCALE,
    ensures
        a.spec_mul(b)@ <= a@,
{
    lemma_tdiv_remainder(a@ * b@, SCALE as int);
    assert(0 <= a@ * b@ <= SCALE * a@) by (nonlinear_arith)
        requires
            0 <= a@,
            0 <= b@ <= SCALE,
    ;
}

/// What a material does to a ray that hits it.
pub trait Material {
    /// What `scatter` returns from sampler position `rng`, with the position
    /// it leaves the sampler at.
    spec fn scatter_model(&self, r_in: Ray, point: Vec3, normal: Vec3, rng: Sampler) -> (
        Option<(Vec3, Ray)>,
        Sampler,
    );

    /// The attenuation and the scattered ray for `r_in` hitting `point`
    /// where the unit normal is `normal`; `None` where the ray is absorbed.
    fn scatter(&self, r_in: &Ray, point: Vec3, normal: Vec3, rng: &mut Sampler) -> (out: Option<
        (Vec3, Ray),
    >)
        ensures
            (out, *final(rng)) == self.scatter_model(*r_in, point, normal, *old(rng)),
    ;
}

/// A diffuse surface.
#[derive(Clone, Copy, Debug, PartialEq, Eq, Structural)]
pub struct Lambertian {
    pub albedo: Vec3,
}

impl Lambertian {
    /// The scattered ray leaves `point` toward `point + normal + sample`;
    /// the attenuation is the albedo.
    pub open spec fn spec_scatter_with(&self, point: Vec3, normal: Vec3, sample: Vec3) -> (
        Vec3,
        Ray,
    ) {
        let target = point.spec_add(normal).spec_add(sample);
        (self.albedo, Ray::new(point, target.spec_sub(point)))
    }

    /// Scatters with `sample` as the point drawn inside the unit sphere.
    #[verifier::when_used_as_spec(spec_scatter_with)]
    pub fn scatter_with(&self, point: Vec3, normal: Vec3, sample: Vec3) -> (out: (Vec3, Ray))
        ensures
            out == self.spec_scatter_with(point, normal, sample),
    {
        let target = point + normal + sample;
        (self.albedo, Ray::new(point, target - point))
    }

    /// What `scatter` returns from sampler position `rng`: always a ray.
    pub open spec fn spec_scatter(&self, point: Vec3, normal: Vec3, rng: Sampler) -> (
        Option<(Vec3, Ray)>,
        Sampler,
    ) {
        let (sample, next) = spec_random_in_unit_sphere(rng, MAX_TRIES as nat);
        (Some(self.spec_scatter_with(point, normal, sample)), next)
    }
}

impl Material for Lambertian {
    open spec fn scatter_model(&self, r_in: Ray, point: Vec3, normal: Vec3, rng: Sampler) -> (
        Option<(Vec3, Ray)>,
        Sampler,
    ) {
        self.spec_scatter(point, normal, rng)
    }

    fn scatter(&self, r_in: &Ray, point: Vec3, normal: Vec3, rng: &mut Sampler) -> (out: Option<
        (Vec3, Ray),
    >)
        ensures
            out is Some,
    {
        let sample = random_in_unit_sphere(rng);
        Some(self.scatter_with(point, normal, sample))
    }
}

/// A mirror, more or less rough.
#[derive(Clone, Copy, Debug, PartialEq, Eq, Structural)]
pub struct Metal {
    pub albedo: Vec3,
    pub fuzz: Real,
}

impl Metal {
    /// The roughness is at most one.
    pub open spec fn wf(&self) -> bool {
        self.fuzz@ <= SCALE
    }

    /// A metal with the given colour; a roughness above one is taken as one.
    pub open spec fn spec_new(albedo: Vec3, fuzz: Real) -> Metal {
        Metal { albedo, fuzz: fuzz.spec_min(Real::one()) }
    }

    /// A metal with the given colour; a roughness above one is taken as one.
    #[verifier::when_used_as_spec(spec_new)]
    pub fn new(albedo: Vec3, fuzz: Real) -> (m: Metal)
        ensures
            m == Metal::spec_new(albedo, fuzz),
            m.wf(),
    {
        Metal { albedo, fuzz: fuzz.min(Real::one()) }
    }

    /// As [`Metal::new`], on the heap.
    pub fn boxed(albedo: Vec3, fuzz: Real) -> (m: Box<Metal>)
        ensures
            *m == Metal::spec_new(albedo, fuzz),
            m.wf(),
    {
        Box::new(Metal::new(albedo, fuzz))
    }

    /// The scattered ray leaves `point` along the mirror image of the
    /// incoming unit direction, moved by `fuzz * sample`. It is kept only
    /// where it points away from the surface.
    pub open spec fn spec_scatter_with(&self, r_in: Ray, point: Vec3, normal: Vec3, sample: Vec3)
        -> Option<(Vec3, Ray)> {
        let reflected = spec_reflect(r_in.d.spec_unit_vec(), normal);
        let scattered = Ray::new(point, reflected.spec_add(sample.spec_scale(self.fuzz)));
        if scattered.d.spec_dot(normal)@ > 0 {
            Some((self.albedo, scattered))
        } else {
            None
        }
    }

    /// Scatters with `sample` as the point drawn inside the unit sphere.
    pub fn scatter_with(&self, r_in: &Ray, point: Vec3, normal: Vec3, sample: Vec3) -> (out:
        Option<(Vec3, Ray)>)
        ensures
            out == self.spec_scatter_with(*r_in, point, normal, sample),
    {
        let reflected = reflect(r_in.direction().unit_vec(), normal);
        let scattered = Ray::new(point, reflected + self.fuzz * sample);
        if scattered.direction().dot(normal).gt(Real::zero()) {
            Some((self.albedo, scattered))
        } else {
            None
        }
    }

    /// What `scatter` returns from sampler position `rng`.
    pub open spec fn spec_scatter(&self, r_in: Ray, point: Vec3, normal: Vec3, rng: Sampler) -> (
        Option<(Vec3, Ray)>,
        Sampler,
    ) {
        let (sample, next) = spec_random_in_unit_sphere(rng, MAX_TRIES as nat);
        (self.spec_scatter_with(r_in, point, normal, sample), next)
    }
}

/// A metal without roughness is a mirror: whatever point was drawn, the
/// scattered ray leaves along the mirror image of the incoming unit
/// direction.
pub proof fn lemma_polished_metal_is_mirror(
    m: Metal,
    r_in: Ray,
    point: Vec3,
    normal: Vec3,
    sample: Vec3,
)
    requires
        m.fuzz@ == 0,
    ensures
        ({
            let mirrored = Ray::new(point, spec_reflect(r_in.d.spec_unit_vec(), normal));
            m.spec_scatter_with(r_in, point, normal, sample) == if mirrored.d.spec_dot(normal)@
                > 0 {
                Some((m.albedo, mirrored))
            } else {
                None
            }
        }),
{
    assert(sample.x@ * 0 == 0 && sample.y@ * 0 == 0 && sample.z@ * 0 == 0) by (nonlinear_arith);
    assert(mul_raw(sample.x@, 0) == 0);
    assert(mul_raw(sample.y@, 0) == 0);
    assert(mul_raw(sample.z@, 0) == 0);
    let reflected = spec_reflect(r_in.d.spec_unit_vec(), normal);
    assert(reflected.spec_add(sample.spec_scale(m.fuzz)) == reflected);
}

impl Material for Metal {
    open spec fn scatter_model(&self, r_in: Ray, point: Vec3, normal: Vec3, rng: Sampler) -> (
        Option<(Vec3, Ray)>,
        Sampler,
    ) {
        self.spec_scatter(r_in, point, normal, rng)
    }

    fn scatter(&self, r_in: &Ray, point: Vec3, normal: Vec3, rng: &mut Sampler) -> (out: Option<
        (Vec3, Ray),
    >) {
        let sample = random_in_unit_sphere(rng);
        self.scatter_with(r_in, point, normal, sample)
    }
}

/// A clear material that refracts, such as glass.
#[derive(Clone, Copy, Debug, PartialEq, Eq, Structural)]
pub struct Dielectric {
    pub ref_idx: Real,
}

impl Dielectric {
    /// The cosine at which the reflectance is taken. For a ray that enters
    /// the material it is the cosine of the angle of incidence,
    /// `-(d . n) / |d|`, kept from passing one by rounding. For a ray that
    /// leaves it, it is that cosine times the refractive index, which stands
    /// for the cosine on the far side.
    pub open spec fn spec_cosine(&self, r_in: Ray, normal: Vec3) -> Real {
        let facing = r_in.d.spec_dot(normal);
        if facing@ > 0 {
            self.ref_idx.spec_mul(facing).spec_div(r_in.d.spec_length())
        } else {
            facing.spec_div(r_in.d.spec_length()).spec_neg().spec_min(Real::one())
        }
    }

    /// The cosine at which the reflectance is taken; see
    /// [`Dielectric::spec_cosine`].
    pub fn cosine(&self, r_in: &Ray, normal: Vec3) -> (c: Real)
        ensures
            c == self.spec_cosine(*r_in, normal),
    {
        let dir = r_in.direction();
        let facing = dir.dot(normal);
        if facing.gt(Real::zero()) {
            self.ref_idx * facing / dir.length()
        } else {
            (facing / dir.length()).neg().min(Real::one())
        }
    }

    /// The direction in which the ray goes on, with `draw` in `[0, 1)`
    /// deciding between reflection and refraction where both are possible:
    /// the ray is reflected where `draw` is below Schlick's reflectance at
    /// [`Dielectric::spec_cosine`], and wherever it cannot be refracted.
    pub open spec fn spec_direction_with(&self, r_in: Ray, normal: Vec3, draw: Real) -> Vec3 {
        let reflected = spec_reflect(r_in.d, normal);
        let facing = r_in.d.spec_dot(normal);
        let cosine = self.spec_cosine(r_in, normal);
        let leaving = facing@ > 0;
        let outward_normal = if leaving {
            normal.spec_neg()
        } else {
            normal
        };
        let ni_over_nt = if leaving {
            self.ref_idx
        } else {
            Real::one().spec_div(self.ref_idx)
        };
        match spec_refract(r_in.d, outward_normal, ni_over_nt) {
            Some(refracted) => {
                if draw@ < spec_schlick(cosine, self.ref_idx)@ {
                    reflected
                } else {
                    refracted
                }
            },
            None => reflected,
        }
    }

    /// The direction in which the ray goes on; see
    /// [`Dielectric::spec_direction_with`].
    pub fn direction_with(&self, r_in: &Ray, normal: Vec3, draw: Real) -> (d: Vec3)
        ensures
            d == self.spec_direction_with(*r_in, normal, draw),
    {
        let dir = r_in.direction();
        let reflected = reflect(dir, normal);
        let facing = dir.dot(normal);
        let cosine = self.cosine(r_in, normal);
        let leaving = facing.gt(Real::zero());
        let outward_normal = if leaving {
            normal.neg()
        } else {
            normal
        };
        let ni_over_nt = if leaving {
            self.ref_idx
        } else {
            Real::one() / self.ref_idx
        };
        match refract(dir, outward_normal, ni_over_nt) {
            Some(refracted) => {
                if draw.lt(schlick(cosine, self.ref_idx)) {
                    reflected
                } else {
                    refracted
                }
            },
            None => reflected,
        }
    }

    /// The scattered ray leaves `point` in the direction that `draw` picks;
    /// nothing is absorbed.
    pub open spec fn spec_scatter_with(&self, r_in: Ray, point: Vec3, normal: Vec3, draw: Real)
        -> (Vec3, Ray) {
        (
            Vec3 { x: Real::one(), y: Real::one(), z: Real::one() },
            Ray::new(point, self.spec_direction_with(r_in, normal, draw)),
        )
    }

    /// Scatters with `draw` as the number drawn from `[0, 1)`.
    pub fn scatter_with(&self, r_in: &Ray, point: Vec3, normal: Vec3, draw: Real) -> (out: (
        Vec3,
        Ray,
    ))
        ensures
            out == self.spec_scatter_with(*r_in, point, normal, draw),
    {
        let attenuation = Vec3::new(Real::one(), Real::one(), Real::one());
        (attenuation, Ray::new(point, self.direction_with(r_in, normal, draw)))
    }

    /// What `scatter` returns from sampler position `rng`: always a ray,
    /// after one draw.
    pub open spec fn spec_scatter(&self, r_in: Ray, point: Vec3, normal: Vec3, rng: Sampler) -> (
        Option<(Vec3, Ray)>,
        Sampler,
    ) {
        (Some(self.spec_scatter_with(r_in, point, normal, rng.spec_unit())), rng.spec_advance())
    }
}

impl Material for Dielectric {
    open spec fn scatter_model(&self, r_in: Ray, point: Vec3, normal: Vec3, rng: Sampler) -> (
        Option<(Vec3, Ray)>,
        Sampler,
    ) {
        self.spec_scatter(r_in, point, normal, rng)
    }

    fn scatter(&self, r_in: &Ray, point: Vec3, normal: Vec3, rng: &mut Sampler) -> (out: Option<
        (Vec3, Ray),
    >)
        ensures
            out is Some,
    {
        let draw = rng.next_unit();
        Some(self.scatter_with(r_in, point, normal, draw))
    }
}

/// Glass reflects a ray that enters it at least as often as one that meets
/// it head on: for a ray with `d . n <= 0` the reflectance at
/// [`Dielectric::spec_cosine`] is at least `((1 - n) / (1 + n))^2`, the
/// reflectance at the cosine one.
pub proof fn lemma_glass_reflects_at_least_head_on(m: Dielectric, r_in: Ray, normal: Vec3)
    requires
        0 <= m.ref_idx@,
        r_in.d.spec_dot(normal)@ <= 0,
    ensures
        0 <= m.spec_cosine(r_in, normal)@ <= SCALE,
        spec_schlick(m.spec_cosine(r_in, normal), m.ref_idx)@ >= spec_schlick(
            Real::one(),
            m.ref_idx,
        )@,
{
    let facing = r_in.d.spec_dot(normal);
    let len = r_in.d.spec_length();
    lemma_dot_self_nonnegative(r_in.d);
    lemma_sqrt_nonnegative(r_in.d.spec_dot(r_in.d));
    if len@ > 0 {
        lemma_tdiv_remainder(facing@ * SCALE, len@);
        assert(facing@ * SCALE <= 0);
    }
    lemma_schlick_is_least_head_on(m.spec_cosine(r_in, normal), m.ref_idx);
}

/// Any of the three materials.
#[derive(Clone, Copy, Debug, PartialEq, Eq, Structural)]
pub enum Surface {
    Lambertian(Lambertian),
    Metal(Metal),
    Dielectric(Dielectric),
}

impl Surface {
    /// What `scatter` returns from sampler position `rng`: what the
    /// material inside returns.
    pub open spec fn spec_scatter(&self, r_in: Ray, point: Vec3, normal: Vec3, rng: Sampler) -> (
        Option<(Vec3, Ray)>,
        Sampler,
    ) {
        match *self {
            Surface::Lambertian(m) => m.spec_scatter(point, normal, rng),
            Surface::Metal(m) => m.spec_scatter(r_in, point, normal, rng),
            Surface::Dielectric(m) => m.spec_scatter(r_in, point, normal, rng),
        }
    }
}

impl Material for Surface {
    open spec fn scatter_model(&self, r_in: Ray, point: Vec3, normal: Vec3, rng: Sampler) -> (
        Option<(Vec3, Ray)>,
        Sampler,
    ) {
        self.spec_scatter(r_in, point, normal, rng)
    }

    fn scatter(&self, r_in: &Ray, point: Vec3, normal: Vec3, rng: &mut Sampler) -> (out: Option<
        (Vec3, Ray),
    >) {
        match self {
            Surface::Lambertian(m) => m.scatter(r_in, point, normal, rng),
            Surface::Metal(m) => m.scatter(r_in, point, normal, rng),
            Surface::Dielectric(m) => m.scatter(r_in, point, normal, rng),
        }
    }
}

} // verus!
