//! The camera: from a place on the image to a ray into the scene.
use crate::ray::Ray;
use crate::sampler::random_in_unit_disk;
use crate::sampler::spec_random_in_unit_disk;
use crate::sampler::Sampler;
use crate::sampler::MAX_TRIES;
use crate::scalar::mul_raw;
use crate::scalar::Real;
use crate::vec3::Vec3;
use vstd::prelude::*;

verus! {

/// A thin-lens camera. The image is a rectangle on the plane of focus, given
/// by its upper left corner and the two vectors that span it; rays start on
/// a lens of radius `lens_radius` around `origin`, in the plane of `u` and
/// `v`.
#[derive(Clone, Copy, Debug, PartialEq, Eq, Structural)]
pub struct Camera {
    pub upper_left_corner: Vec3,
    pub horizontal: Vec3,
    pub vertical: Vec3,
    pub origin: Vec3,
    pub lens_radius: Real,
    pub u: Vec3,
    pub v: Vec3,
    pub w: Vec3,
}

impl Camera {
    /// The camera at the origin that looks down the negative z axis at the
    /// rectangle from `(-2, 1, -1)` to `(2, -1, -1)`, through a pinhole.
    pub open spec fn spec_new() -> Camera {
        Camera {
            upper_left_corner: Vec3 {
                x: Real::from_int((-2) as i32),
                y: Real::from_int(1),
                z: Real::from_int((-1) as i32),
            },
            horizontal: Vec3 { x: Real::from_int(4), y: Real::zero(), z: Real::zero() },
            vertical: Vec3 { x: Real::zero(), y: Real::from_int((-2) as i32), z: Real::zero() },
            origin: Vec3::zero(),
            lens_radius: Real::zero(),
            u: Vec3 { x: Real::one(), y: Real::zero(), z: Real::zero() },
            v: Vec3 { x: Real::zero(), y: Real::one(), z: Real::zero() },
            w: Vec3 { x: Real::zero(), y: Real::zero(), z: Real::one() },
        }
    }

    /// The camera at `look_from` that looks at `look_at` with `v_up` upward.
    ///
    /// With `w` the unit vector from the target to the eye, `u` the unit
    /// vector along `v_up x w` and `v = w x u`, the image is the rectangle
    /// at distance `focus_dist` in front of the eye that is
    /// `2 * half_height * focus_dist` high and `aspect` times as wide. The
    /// lens has the diameter `aperture`.
    pub open spec fn spec_viewport(
        look_from: Vec3,
        look_at: Vec3,
        v_up: Vec3,
        half_height: Real,
        aspect: Real,
        aperture: Real,
        focus_dist: Real,
    ) -> Camera {
        let half_width = aspect.spec_mul(half_height);
        let w = look_from.spec_sub(look_at).spec_unit_vec();
        let u = v_up.spec_cross(w).spec_unit_vec();
        let v = w.spec_cross(u);
        Camera {
            upper_left_corner: look_from.spec_sub(u.spec_scale(half_width.spec_mul(focus_dist)))
                .spec_add(v.spec_scale(half_height.spec_mul(focus_dist))).spec_sub(
                w.spec_scale(focus_dist),
            ),
            horizontal: u.spec_scale(
                Real::from_int(2).spec_mul(half_width).spec_mul(focus_dist),
            ),
            vertical: v.spec_scale(Real::from_int((-2) as i32).spec_mul(half_height).spec_mul(focus_dist)),
            origin: look_from,
            lens_radius: aperture.spec_div(Real::from_int(2)),
            u,
            v,
            w,
        }
    }

    /// The ray through the place `(s, t)` of the image, with `s` from left
    /// to right and `t` from top to bottom, both in `[0, 1]`. It starts on
    /// the lens at `lens_radius * sample`, measured along `u` and `v`, and
    /// aims at the place's point on the plane of focus.
    pub open spec fn spec_get_ray_through(&self, s: Real, t: Real, sample: Vec3) -> Ray {
        let rd = sample.spec_scale(self.lens_radius);
        let offset = self.u.spec_scale(rd.x).spec_add(self.v.spec_scale(rd.y));
        Ray::new(
            self.origin.spec_add(offset),
            self.upper_left_corner.spec_add(self.horizontal.spec_scale(s)).spec_add(
                self.vertical.spec_scale(t),
            ).spec_sub(self.origin).spec_sub(offset),
        )
    }

    /// What `get_ray` returns from sampler position `rng`, with the position
    /// it leaves the sampler at.
    pub open spec fn spec_get_ray(&self, s: Real, t: Real, rng: Sampler) -> (Ray, Sampler) {
        let (sample, next) = spec_random_in_unit_disk(rng, MAX_TRIES as nat);
        (self.spec_get_ray_through(s, t, sample), next)
    }

    /// The pinhole camera at the origin; see [`Camera::spec_new`].
    #[verifier::when_used_as_spec(spec_new)]
    pub fn new() -> (cam: Camera)
        ensures
            cam == Camera::spec_new(),
    {
        Camera {
            upper_left_corner: Vec3::new(
                Real::from_int(-2),
                Real::from_int(1),
                Real::from_int(-1),
            ),
            horizontal: Vec3::new(Real::from_int(4), Real::zero(), Real::zero()),
            vertical: Vec3::new(Real::zero(), Real::from_int(-2), Real::zero()),
            origin: Vec3::zero(),
            lens_radius: Real::zero(),
            u: Vec3::new(Real::one(), Real::zero(), Real::zero()),
            v: Vec3::new(Real::zero(), Real::one(), Real::zero()),
            w: Vec3::new(Real::zero(), Real::zero(), Real::one()),
        }
    }

    /// The camera at `look_from` that looks at `look_at`; see
    /// [`Camera::spec_viewport`]. `half_height` is the tangent of half the
    /// vertical angle of view.
    #[verifier::when_used_as_spec(spec_viewport)]
    pub fn viewport(
        look_from: Vec3,
        look_at: Vec3,
        v_up: Vec3,
        half_height: Real,
        aspect: Real,
        aperture: Real,
        focus_dist: Real,
    ) -> (cam: Camera)
        ensures
            cam == Camera::spec_viewport(
                look_from,
                look_at,
                v_up,
                half_height,
                aspect,
                aperture,
                focus_dist,
            ),
    {
        let lens_radius = aperture / Real::from_int(2);
        let half_width = aspect * half_height;
        let w = (look_from - look_at).unit_vec();
        let u = v_up.cross(w).unit_vec();
        let v = w.cross(u);
        let origin = look_from;
        let upper_left_corner = origin - half_width * focus_dist * u + half_height * focus_dist * v
            - focus_dist * w;
        let horizontal = Real::from_int(2) * half_width * focus_dist * u;
        let vertical = Real::from_int(-2) * half_height * focus_dist * v;
        Camera { upper_left_corner, horizontal, vertical, origin, lens_radius, u, v, w }
    }

    /// The ray through `(s, t)` that starts at the place of the lens that
    /// `sample`, a point of the unit disk, stands for.
    #[verifier::when_used_as_spec(spec_get_ray_through)]
    pub fn get_ray_through(&self, s: Real, t: Real, sample: Vec3) -> (r: Ray)
        ensures
            r == self.spec_get_ray_through(s, t, sample),
    {
        let rd = self.lens_radius * sample;
        let offset = self.u * rd.x + self.v * rd.y;
        Ray::new(
            self.origin + offset,
            self.upper_left_corner + s * self.horizontal + t * self.vertical - self.origin
                - offset,
        )
    }

    /// The ray through `(s, t)` from a place of the lens drawn at random.
    pub fn get_ray(&self, s: Real, t: Real, rng: &mut Sampler) -> (r: Ray)
        ensures
            (r, *final(rng)) == self.spec_get_ray(s, t, *old(rng)),
    {
        let sample = random_in_unit_disk(rng);
        self.get_ray_through(s, t, sample)
    }
}

/// Multiplying by zero gives zero.
pub proof fn lemma_mul_zero(a: int)
    ensures
        mul_raw(a, 0) == 0,
        mul_raw(0, a) == 0,
{
    assert(a * 0 == 0 && 0 * a == 0) by (nonlinear_arith);
}

/// Through a pinhole every ray starts at the camera's origin, whatever
/// place of the lens was drawn.
pub proof fn lemma_pinhole_ignores_lens(cam: Camera, s: Real, t: Real, a: Vec3, b: Vec3)
    requires
        cam.lens_radius@ == 0,
    ensures
        cam.spec_get_ray_through(s, t, a) == cam.spec_get_ray_through(s, t, b),
        cam.spec_get_ray_through(s, t, a).o == cam.origin,
{
    lemma_mul_zero(a.x@);
    lemma_mul_zero(a.y@);
    lemma_mul_zero(b.x@);
    lemma_mul_zero(b.y@);
    lemma_mul_zero(cam.u.x@);
    lemma_mul_zero(cam.u.y@);
    lemma_mul_zero(cam.u.z@);
    lemma_mul_zero(cam.v.x@);
    lemma_mul_zero(cam.v.y@);
    lemma_mul_zero(cam.v.z@);
}

} // verus!
