//! Rays: an origin and a direction of unit length.
use crate::scalar::magnitude;
use crate::scalar::Real;
use crate::scalar::SCALE;
use crate::vec3::exact_length_squared;
use crate::vec3::lemma_unit_vec_length;
use crate::vec3::spec_unit_vec_bound;
use crate::vec3::Vec3;
use vstd::prelude::*;

verus! {

/// A half-line `o + t * d`. [`Ray::new`] stores the direction normalised, so
/// that `t` measures distance along the ray.
#[derive(Clone, Copy, Debug, PartialEq, Eq, Structural)]
pub struct Ray {
    pub o: Vec3,
    pub d: Vec3,
}

impl Ray {
    /// The ray from `o` along `d`, with `d` scaled to unit length.
    pub open spec fn spec_new(o: Vec3, d: Vec3) -> Ray {
        Ray { o, d: d.spec_unit_vec() }
    }

    /// The direction has the length one, up to 2^-29 in its exact square.
    pub open spec fn spec_unit_direction(&self) -> bool {
        magnitude(exact_length_squared(self.d) - SCALE * SCALE) <= 8 * SCALE
    }

    /// The point at distance `t` along the ray.
    pub open spec fn spec_point_at_parameter(&self, t: Real) -> Vec3 {
        self.o.spec_add(self.d.spec_scale(t))
    }

    /// The ray from `o` along `d`, with `d` scaled to unit length.
    #[verifier::when_used_as_spec(spec_new)]
    pub fn new(o: Vec3, d: Vec3) -> (r: Ray)
        ensures
            r == Ray::spec_new(o, d),
    {
        Ray { o, d: d.unit_vec() }
    }

    /// Where the ray starts.
    pub fn origin(&self) -> (o: Vec3)
        ensures
            o == self.o,
    {
        self.o
    }

    /// The direction, as stored.
    pub fn direction(&self) -> (d: Vec3)
        ensures
            d == self.d,
    {
        self.d
    }

    /// The point at distance `t` along the ray.
    #[verifier::when_used_as_spec(spec_point_at_parameter)]
    pub fn point_at_parameter(&self, t: Real) -> (p: Vec3)
        ensures
            p == self.spec_point_at_parameter(t),
    {
        self.o + t * self.d
    }
}

/// A new ray has a direction of unit length, where the direction it was
/// made from has components of at most 16384 in size and a length of at
/// least one.
pub proof fn lemma_new_ray_has_unit_direction(o: Vec3, d: Vec3)
    requires
        magnitude(d.x@) <= spec_unit_vec_bound(),
        magnitude(d.y@) <= spec_unit_vec_bound(),
        magnitude(d.z@) <= spec_unit_vec_bound(),
        d.spec_length()@ >= SCALE,
    ensures
        Ray::spec_new(o, d).spec_unit_direction(),
{
    lemma_unit_vec_length(d);
}

} // verus!
