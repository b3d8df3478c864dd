//! Geometry that a ray can hit: spheres, and lists of spheres.
use crate::material::Surface;
use crate::ray::Ray;
use crate::scalar::lemma_div_monotone;
use crate::scalar::lemma_sqrt_nonnegative;
use crate::scalar::Real;
use crate::vec3::lemma_dot_self_nonnegative;
use crate::vec3::Vec3;
use std::ops::Neg;
use vstd::prelude::*;

verus! {

/// Where a ray met a surface.
#[derive(Clone, Copy, Debug, PartialEq, Eq, Structural)]
pub struct HitRecord {
    /// The distance along the ray.
    pub t: Real,
    /// The point that was hit.
    pub p: Vec3,
    /// The outward normal at that point.
    pub normal: Vec3,
    /// The material of the surface, copied from it.
    pub mat: Surface,
}

/// A surface that reports where a ray meets it.
pub trait Hitable: Sync {
    /// What `hit` returns.
    spec fn hit_model(&self, r: Ray, t_min: Real, t_max: Real) -> Option<HitRecord>;

    /// The nearest meeting of `r` with the surface at a distance strictly
    /// between `t_min` and `t_max`, if there is one.
    fn hit(&self, r: &Ray, t_min: Real, t_max: Real) -> (rec: Option<HitRecord>)
        ensures
            rec == self.hit_model(*r, t_min, t_max),
    ;
}

/// A sphere of one material.
#[derive(Clone, Copy, Debug, PartialEq, Eq, Structural)]
pub struct Sphere {
    pub center: Vec3,
    pub radius: Real,
    pub mat: Surface,
}

/// The two distances at which a ray meets a sphere, the nearer first.
pub struct Roots {
    pub near: Real,
    pub far: Real,
}

impl Sphere {
    /// The roots of `|o + t d - c|^2 = r^2` in `t`, where the discriminant
    /// `b^2 - a c` is positive, with `a = d . d`, `b = (o - c) . d` and
    /// `c = (o - c) . (o - c) - r^2`: they are `(-b -+ sqrt(b^2 - a c)) / a`.
    #[verifier::opaque]
    pub open spec fn spec_roots(&self, r: Ray) -> Option<Roots> {
        let oc = r.o.spec_sub(self.center);
        let a = r.d.spec_dot(r.d);
        let b = oc.spec_dot(r.d);
        let c = oc.spec_dot(oc).spec_sub(self.radius.spec_mul(self.radius));
        let discriminant = b.spec_mul(b).spec_sub(a.spec_mul(c));
        if discriminant@ > 0 {
            Some(
                Roots {
                    near: b.spec_neg().spec_sub(discriminant.spec_sqrt()).spec_div(a),
                    far: b.spec_neg().spec_add(discriminant.spec_sqrt()).spec_div(a),
                },
            )
        } else {
            None
        }
    }

    /// The record of a hit at distance `t`: the point there, and the normal
    /// `(p - c) / r`.
    pub open spec fn spec_record(&self, r: Ray, t: Real) -> HitRecord {
        let p = r.spec_point_at_parameter(t);
        HitRecord { t, p, normal: p.spec_sub(self.center).spec_shrink(self.radius), mat: self.mat }
    }

    /// The hit at the nearer root where that lies strictly between `t_min`
    /// and `t_max`, else at the farther root where that does; else none.
    pub open spec fn spec_hit(&self, r: Ray, t_min: Real, t_max: Real) -> Option<HitRecord> {
        match self.spec_roots(r) {
            Some(roots) => {
                if t_min@ < roots.near@ < t_max@ {
                    Some(self.spec_record(r, roots.near))
                } else if t_min@ < roots.far@ < t_max@ {
                    Some(self.spec_record(r, roots.far))
                } else {
                    None
                }
            },
            None => None,
        }
    }

    /// The sphere around `center`.
    pub fn new(center: Vec3, radius: Real, mat: Surface) -> (s: Sphere)
        ensures
            s == (Sphere { center, radius, mat }),
    {
        Sphere { center, radius, mat }
    }

    /// As [`Sphere::new`], on the heap.
    pub fn boxed(center: Vec3, radius: Real, mat: Surface) -> (s: Box<Sphere>)
        ensures
            *s == (Sphere { center, radius, mat }),
    {
        Box::new(Sphere::new(center, radius, mat))
    }

    /// The two roots, where the ray's line meets the sphere twice.
    pub fn roots(&self, r: &Ray) -> (out: Option<Roots>)
        ensures
            out == self.spec_roots(*r),
    {
        proof {
            reveal(Sphere::spec_roots);
        }
        let oc = r.origin() - self.center;
        let a = r.direction().dot(r.direction());
        let b = oc.dot(r.direction());
        let c = oc.dot(oc) - self.radius * self.radius;
        let discriminant = b * b - a * c;
        if discriminant.gt(Real::zero()) {
            let root = discriminant.sqrt();
            Some(Roots { near: (b.neg() - root) / a, far: (b.neg() + root) / a })
        } else {
            None
        }
    }

    /// The record of a hit at distance `t`.
    pub fn record(&self, r: &Ray, t: Real) -> (rec: HitRecord)
        ensures
            rec == self.spec_record(*r, t),
    {
        let p = r.point_at_parameter(t);
        HitRecord { t, p, normal: (p - self.center) / self.radius, mat: self.mat }
    }
}

impl Hitable for Sphere {
    open spec fn hit_model(&self, r: Ray, t_min: Real, t_max: Real) -> Option<HitRecord> {
        self.spec_hit(r, t_min, t_max)
    }

    fn hit(&self, r: &Ray, t_min: Real, t_max: Real) -> (rec: Option<HitRecord>)
        ensures
            rec matches Some(hit) ==> {
                &&& t_min@ < hit.t@ < t_max@
                &&& hit.p == r.spec_point_at_parameter(hit.t)
                &&& hit.normal == hit.p.spec_sub(self.center).spec_shrink(self.radius)
                &&& hit.mat == self.mat
            },
    {
        match self.roots(r) {
            Some(roots) => {
                if roots.near.lt(t_max) && roots.near.gt(t_min) {
                    Some(self.record(r, roots.near))
                } else if roots.far.lt(t_max) && roots.far.gt(t_min) {
                    Some(self.record(r, roots.far))
                } else {
                    None
                }
            },
            None => None,
        }
    }
}

/// The nearer root is never behind the farther one.
pub proof fn lemma_roots_ordered(s: Sphere, r: Ray)
    ensures
        s.spec_roots(r) matches Some(roots) ==> roots.near@ <= roots.far@,
{
    let oc = r.o.spec_sub(s.center);
    let a = r.d.spec_dot(r.d);
    let b = oc.spec_dot(r.d);
    let c = oc.spec_dot(oc).spec_sub(s.radius.spec_mul(s.radius));
    let discriminant = b.spec_mul(b).spec_sub(a.spec_mul(c));
    reveal(Sphere::spec_roots);
    if discriminant@ > 0 {
        lemma_dot_self_nonnegative(r.d);
        lemma_sqrt_nonnegative(discriminant);
        lemma_div_monotone(
            b.spec_neg().spec_sub(discriminant.spec_sqrt()),
            b.spec_neg().spec_add(discriminant.spec_sqrt()),
            a,
        );
    }
}

/// A hit lies on the ray strictly between the two limits, at one of the two
/// roots; its point is the ray's point at that distance, its normal is the
/// offset of that point from the centre divided by the radius, and its
/// material is the sphere's.
pub proof fn lemma_hit_record(s: Sphere, r: Ray, t_min: Real, t_max: Real)
    ensures
        s.spec_hit(r, t_min, t_max) matches Some(rec) ==> {
            &&& t_min@ < rec.t@ < t_max@
            &&& s.spec_roots(r) matches Some(roots) && (rec.t == roots.near || rec.t == roots.far)
            &&& rec.p == r.spec_point_at_parameter(rec.t)
            &&& rec.normal == rec.p.spec_sub(s.center).spec_shrink(s.radius)
            &&& rec.mat == s.mat
        },
{
}

/// Lowering the far limit only removes the hit: under a limit `limit` that
/// is at most `t_max`, a sphere reports the hit it reports under `t_max`
/// where that hit is nearer than `limit`, and none otherwise.
pub proof fn lemma_hit_under_lower_limit(s: Sphere, r: Ray, t_min: Real, limit: Real, t_max: Real)
    requires
        limit@ <= t_max@,
    ensures
        s.spec_hit(r, t_min, limit) == (match s.spec_hit(r, t_min, t_max) {
            Some(rec) => if rec.t@ < limit@ {
                Some(rec)
            } else {
                None
            },
            None => None,
        }),
{
    lemma_roots_ordered(s, r);
}

/// A scene: spheres in the order in which they are tested.
pub type HitableList = Vec<Sphere>;

/// The limit under which the next sphere is tested: the distance of the
/// closest hit so far, or `t_max` while there is none.
pub open spec fn spec_limit(so_far: Option<HitRecord>, t_max: Real) -> Real {
    match so_far {
        Some(rec) => rec.t,
        None => t_max,
    }
}

/// The closest hit among `spheres`, taken in order: each sphere is tested
/// under the distance of the closest hit before it, so a later sphere wins
/// only where it is strictly nearer.
pub open spec fn spec_closest_hit(spheres: Seq<Sphere>, r: Ray, t_min: Real, t_max: Real) -> Option<
    HitRecord,
>
    decreases spheres.len(),
{
    if spheres.len() == 0 {
        None
    } else {
        let before = spec_closest_hit(spheres.drop_last(), r, t_min, t_max);
        match spheres.last().spec_hit(r, t_min, spec_limit(before, t_max)) {
            Some(rec) => Some(rec),
            None => before,
        }
    }
}

impl Hitable for HitableList {
    open spec fn hit_model(&self, r: Ray, t_min: Real, t_max: Real) -> Option<HitRecord> {
        spec_closest_hit(self@, r, t_min, t_max)
    }

    fn hit(&self, r: &Ray, t_min: Real, t_max: Real) -> (rec: Option<HitRecord>)
        ensures
            match rec {
                Some(hit) => exists|i: int| is_first_nearest(self@, *r, t_min, t_max, i, hit),
                None => forall|j: int|
                    0 <= j < self@.len() ==> (#[trigger] self@[j].spec_hit(*r, t_min, t_max))
                        is None,
            },
    {
        let mut closest_so_far = t_max;
        let mut rec_opt: Option<HitRecord> = None;
        let mut i: usize = 0;
        while i < self.len()
            invariant
                i <= self.len(),
                rec_opt == spec_closest_hit(self@.take(i as int), *r, t_min, t_max),
                closest_so_far == spec_limit(rec_opt, t_max),
            decreases self.len() - i,
        {
            assert(self@.take(i + 1).drop_last() =~= self@.take(i as int));
            if let Some(rec) = self[i].hit(r, t_min, closest_so_far) {
                closest_so_far = rec.t;
                rec_opt = Some(rec);
            }
            i = i + 1;
        }
        proof {
            assert(self@.take(i as int) =~= self@);
            lemma_closest_hit_is_nearest(self@, *r, t_min, t_max);
        }
        rec_opt
    }
}

/// `rec` is the hit of sphere number `i`, no sphere is hit nearer, and no
/// sphere before `i` is hit as near.
pub open spec fn is_first_nearest(
    spheres: Seq<Sphere>,
    r: Ray,
    t_min: Real,
    t_max: Real,
    i: int,
    rec: HitRecord,
) -> bool {
    &&& 0 <= i < spheres.len()
    &&& spheres[i].spec_hit(r, t_min, t_max) == Some(rec)
    &&& forall|j: int|
        0 <= j < spheres.len() ==> (#[trigger] spheres[j].spec_hit(r, t_min, t_max) matches Some(
            other,
        ) ==> rec.t@ <= other.t@ && (j < i ==> rec.t@ < other.t@))
}

/// The closest hit of a list is the hit of one of its spheres under the
/// limits given, at the least distance among all of them; among spheres at
/// that distance, the first one. It is none exactly where no sphere is hit.
pub proof fn lemma_closest_hit_is_nearest(spheres: Seq<Sphere>, r: Ray, t_min: Real, t_max: Real)
    ensures
        match spec_closest_hit(spheres, r, t_min, t_max) {
            Some(rec) => exists|i: int| is_first_nearest(spheres, r, t_min, t_max, i, rec),
            None => forall|j: int|
                0 <= j < spheres.len() ==> (#[trigger] spheres[j].spec_hit(r, t_min, t_max))
                    is None,
        },
    decreases spheres.len(),
{
    if spheres.len() > 0 {
        let front = spheres.drop_last();
        let last = spheres.last();
        let n = spheres.len() - 1;
        lemma_closest_hit_is_nearest(front, r, t_min, t_max);
        let before = spec_closest_hit(front, r, t_min, t_max);
        let limit = spec_limit(before, t_max);
        assert forall|j: int| 0 <= j < n implies front[j] == spheres[j] by {}
        match before {
            Some(b) => {
                let k = choose|k: int| is_first_nearest(front, r, t_min, t_max, k, b);
                lemma_hit_record(front[k], r, t_min, t_max);
                lemma_hit_under_lower_limit(last, r, t_min, limit, t_max);
                match last.spec_hit(r, t_min, limit) {
                    Some(rec) => {
                        assert forall|j: int| 0 <= j < spheres.len() implies (
                        #[trigger] spheres[j].spec_hit(r, t_min, t_max) matches Some(other)
                            ==> rec.t@ <= other.t@ && (j < n ==> rec.t@ < other.t@)) by {
                            if j < n {
                                assert(front[j].spec_hit(r, t_min, t_max) == spheres[j].spec_hit(
                                    r,
                                    t_min,
                                    t_max,
                                ));
                            }
                        }
                        assert(is_first_nearest(spheres, r, t_min, t_max, n, rec));
                    },
                    None => {
                        assert forall|j: int| 0 <= j < spheres.len() implies (
                        #[trigger] spheres[j].spec_hit(r, t_min, t_max) matches Some(other)
                            ==> b.t@ <= other.t@ && (j < k ==> b.t@ < other.t@)) by {
                            if j < n {
                                assert(front[j].spec_hit(r, t_min, t_max) == spheres[j].spec_hit(
                                    r,
                                    t_min,
                                    t_max,
                                ));
                            }
                        }
                        assert(is_first_nearest(spheres, r, t_min, t_max, k, b));
                    },
                }
            },
            None => {
                match last.spec_hit(r, t_min, t_max) {
                    Some(rec) => {
                        assert forall|j: int| 0 <= j < spheres.len() implies (
                        #[trigger] spheres[j].spec_hit(r, t_min, t_max) matches Some(other)
                            ==> rec.t@ <= other.t@ && (j < n ==> rec.t@ < other.t@)) by {
                            if j < n {
                                assert(front[j].spec_hit(r, t_min, t_max) is None);
                            }
                        }
                        assert(is_first_nearest(spheres, r, t_min, t_max, n, rec));
                    },
                    None => {
                        assert forall|j: int| 0 <= j < spheres.len() implies (
                        #[trigger] spheres[j].spec_hit(r, t_min, t_max)) is None by {
                            if j < n {
                                assert(front[j].spec_hit(r, t_min, t_max) is None);
                            }
                        }
                    },
                }
            },
        }
    }
}

/// The closest hit does not change when the spheres that the ray misses are
/// taken out of the list.
pub proof fn lemma_closest_hit_ignores_misses(
    spheres: Seq<Sphere>,
    r: Ray,
    t_min: Real,
    t_max: Real,
)
    ensures
        spec_closest_hit(spheres, r, t_min, t_max) == spec_closest_hit(
            spheres.filter(|s: Sphere| s.spec_hit(r, t_min, t_max) is Some),
            r,
            t_min,
            t_max,
        ),
    decreases spheres.len(),
{
    let is_hit = |s: Sphere| s.spec_hit(r, t_min, t_max) is Some;
    reveal(Seq::filter);
    if spheres.len() > 0 {
        let front = spheres.drop_last();
        let last = spheres.last();
        lemma_closest_hit_ignores_misses(front, r, t_min, t_max);
        let before = spec_closest_hit(front, r, t_min, t_max);
        lemma_closest_hit_is_nearest(front, r, t_min, t_max);
        match before {
            Some(b) => {
                let k = choose|k: int| is_first_nearest(front, r, t_min, t_max, k, b);
                lemma_hit_record(front[k], r, t_min, t_max);
            },
            None => {},
        }
        lemma_hit_under_lower_limit(last, r, t_min, spec_limit(before, t_max), t_max);
        if is_hit(last) {
            let kept = front.filter(is_hit).push(last);
            assert(kept.drop_last() =~= front.filter(is_hit));
            assert(spheres.filter(is_hit) == kept);
        } else {
            assert(spheres.filter(is_hit) == front.filter(is_hit));
        }
    }
}

/// Two lists in which the spheres that the ray hits are the same and stand
/// in the same order give the same closest hit, wherever the spheres that it
/// misses stand.
pub proof fn lemma_closest_hit_reordered(
    first: Seq<Sphere>,
    second: Seq<Sphere>,
    r: Ray,
    t_min: Real,
    t_max: Real,
)
    requires
        first.filter(|s: Sphere| s.spec_hit(r, t_min, t_max) is Some) == second.filter(
            |s: Sphere| s.spec_hit(r, t_min, t_max) is Some,
        ),
    ensures
        spec_closest_hit(first, r, t_min, t_max) == spec_closest_hit(second, r, t_min, t_max),
{
    lemma_closest_hit_ignores_misses(first, r, t_min, t_max);
    lemma_closest_hit_ignores_misses(second, r, t_min, t_max);
}

} // verus!
