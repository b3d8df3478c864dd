//! A scene of many small spheres scattered at random around three large
//! ones, on a large sphere for the ground.
use crate::hitable::HitableList;
use crate::hitable::Sphere;
use crate::material::Dielectric;
use crate::material::Lambertian;
use crate::material::Metal;
use crate::material::Surface;
use crate::sampler::Sampler;
use crate::scalar::Real;
use crate::tracer::spec_pixel_stream;
use crate::vec3::Vec3;
use vstd::prelude::*;

verus! {

/// The stream of random numbers from which [`random_scene`] draws: the last
/// one, which is the stream of no pixel.
pub const SCENE_STREAM: u64 = 0xffff_ffff_ffff_ffff;

/// The number of cells of the grid: one small sphere may stand in each.
pub const CELLS: u32 = 484;

/// The ground: a sphere of radius 1000 whose top is at height zero.
pub open spec fn spec_ground() -> Sphere {
    Sphere {
        center: Vec3 { x: Real::zero(), y: Real::from_int((-1000) as i32), z: Real::zero() },
        radius: Real::from_int(1000),
        mat: Surface::Lambertian(
            Lambertian {
                albedo: Vec3 {
                    x: Real::from_ratio(1, 2),
                    y: Real::from_ratio(1, 2),
                    z: Real::from_ratio(1, 2),
                },
            },
        ),
    }
}

/// The three large spheres, of glass, of a flat brown, and of polished
/// metal, in the order in which they stand in the scene.
pub open spec fn spec_landmarks() -> Seq<Sphere> {
    seq![
        Sphere {
            center: Vec3 { x: Real::zero(), y: Real::one(), z: Real::zero() },
            radius: Real::one(),
            mat: Surface::Dielectric(Dielectric { ref_idx: Real::from_ratio(3, 2) }),
        },
        Sphere {
            center: Vec3 { x: Real::from_int((-4) as i32), y: Real::one(), z: Real::zero() },
            radius: Real::one(),
            mat: Surface::Lambertian(
                Lambertian {
                    albedo: Vec3 {
                        x: Real::from_ratio(2, 5),
                        y: Real::from_ratio(1, 5),
                        z: Real::from_ratio(1, 10),
                    },
                },
            ),
        },
        Sphere {
            center: Vec3 { x: Real::from_int(4), y: Real::one(), z: Real::zero() },
            radius: Real::one(),
            mat: Surface::Metal(
                Metal::new(
                    Vec3 {
                        x: Real::from_ratio(7, 10),
                        y: Real::from_ratio(3, 5),
                        z: Real::from_ratio(1, 2),
                    },
                    Real::zero(),
                ),
            ),
        },
    ]
}

/// A diffuse material whose channels are each the product of two draws.
pub open spec fn spec_random_lambertian(rng: Sampler) -> (Surface, Sampler) {
    let r1 = rng.spec_advance();
    let r2 = r1.spec_advance();
    let r3 = r2.spec_advance();
    let r4 = r3.spec_advance();
    let r5 = r4.spec_advance();
    (
        Surface::Lambertian(
            Lambertian {
                albedo: Vec3 {
                    x: rng.spec_unit().spec_mul(r1.spec_unit()),
                    y: r2.spec_unit().spec_mul(r3.spec_unit()),
                    z: r4.spec_unit().spec_mul(r5.spec_unit()),
                },
            },
        ),
        r5.spec_advance(),
    )
}

/// A diffuse material whose channels are each the product of two draws.
pub fn random_lambertian(rng: &mut Sampler) -> (m: Surface)
    ensures
        (m, *final(rng)) == spec_random_lambertian(*old(rng)),
{
    let a = rng.next_unit();
    let b = rng.next_unit();
    let c = rng.next_unit();
    let d = rng.next_unit();
    let e = rng.next_unit();
    let f = rng.next_unit();
    Surface::Lambertian(Lambertian { albedo: Vec3::new(a * b, c * d, e * f) })
}

/// A metal with red and green in `[0.5, 1)`, blue in `[0, 0.5)` and a
/// roughness in `[0, 0.5)`, from four draws.
pub open spec fn spec_random_metal(rng: Sampler) -> (Surface, Sampler) {
    let r1 = rng.spec_advance();
    let r2 = r1.spec_advance();
    let r3 = r2.spec_advance();
    let half = Real::from_ratio(1, 2);
    (
        Surface::Metal(
            Metal::new(
                Vec3 {
                    x: half.spec_mul(Real::one().spec_add(rng.spec_unit())),
                    y: half.spec_mul(Real::one().spec_add(r1.spec_unit())),
                    z: half.spec_mul(r2.spec_unit()),
                },
                half.spec_mul(r3.spec_unit()),
            ),
        ),
        r3.spec_advance(),
    )
}

/// A metal of a random colour and roughness.
pub fn random_metal(rng: &mut Sampler) -> (m: Surface)
    ensures
        (m, *final(rng)) == spec_random_metal(*old(rng)),
{
    let half = Real::from_ratio(1, 2);
    let a = rng.next_unit();
    let b = rng.next_unit();
    let c = rng.next_unit();
    let d = rng.next_unit();
    Surface::Metal(
        Metal::new(Vec3::new(half * (Real::one() + a), half * (Real::one() + b), half * c), half * d),
    )
}

/// The small sphere of the cell at `(a, b)`, if it has one.
///
/// The first draw picks the material: below 0.8 diffuse, below 0.95 metal,
/// else glass. The next two place the centre at height 0.2 within the cell.
/// A sphere whose centre is within 0.9 of `(4, 0.2, 0)`, where a large
/// sphere stands, is left out.
#[verifier::opaque]
pub open spec fn spec_cell(a: i32, b: i32, rng: Sampler) -> (Option<Sphere>, Sampler) {
    let r1 = rng.spec_advance();
    let r2 = r1.spec_advance();
    let r3 = r2.spec_advance();
    let choice = rng.spec_unit();
    let radius = Real::from_ratio(1, 5);
    let center = Vec3 {
        x: Real::from_int(a).spec_add(Real::from_ratio(9, 10).spec_mul(r1.spec_unit())),
        y: Real::from_ratio(1, 5),
        z: Real::from_int(b).spec_add(Real::from_ratio(9, 10).spec_mul(r2.spec_unit())),
    };
    let taken = Vec3 { x: Real::from_int(4), y: Real::from_ratio(1, 5), z: Real::zero() };
    if center.spec_sub(taken).spec_length()@ > Real::from_ratio(9, 10)@ {
        if choice@ < Real::from_ratio(4, 5)@ {
            let (mat, end) = spec_random_lambertian(r3);
            (Some(Sphere { center, radius, mat }), end)
        } else if choice@ < Real::from_ratio(19, 20)@ {
            let (mat, end) = spec_random_metal(r3);
            (Some(Sphere { center, radius, mat }), end)
        } else {
            (
                Some(
                    Sphere {
                        center,
                        radius,
                        mat: Surface::Dielectric(Dielectric { ref_idx: Real::from_ratio(3, 2) }),
                    },
                ),
                r3,
            )
        }
    } else {
        (None, r3)
    }
}

/// A small sphere has the radius 0.2, rests on the ground, and keeps its
/// centre more than 0.9 away from `(4, 0.2, 0)`.
pub proof fn lemma_cell_sphere(a: i32, b: i32, rng: Sampler)
    ensures
        spec_cell(a, b, rng).0 matches Some(s) ==> {
            &&& s.radius == Real::from_ratio(1, 5)
            &&& s.center.y == Real::from_ratio(1, 5)
            &&& s.center.spec_sub(
                Vec3 { x: Real::from_int(4), y: Real::from_ratio(1, 5), z: Real::zero() },
            ).spec_length()@ > Real::from_ratio(9, 10)@
        },
{
    reveal(spec_cell);
}

/// The small sphere of the cell at `(a, b)`, if it has one.
pub fn cell(a: i32, b: i32, rng: &mut Sampler) -> (out: Option<Sphere>)
    ensures
        (out, *final(rng)) == spec_cell(a, b, *old(rng)),
{
    proof {
        reveal(spec_cell);
    }
    let choice = rng.next_unit();
    let dx = rng.next_unit();
    let dz = rng.next_unit();
    let radius = Real::from_ratio(1, 5);
    let center = Vec3::new(
        Real::from_int(a) + Real::from_ratio(9, 10) * dx,
        Real::from_ratio(1, 5),
        Real::from_int(b) + Real::from_ratio(9, 10) * dz,
    );
    let taken = Vec3::new(Real::from_int(4), Real::from_ratio(1, 5), Real::zero());
    if (center - taken).length().gt(Real::from_ratio(9, 10)) {
        if choice.lt(Real::from_ratio(4, 5)) {
            let mat = random_lambertian(rng);
            Some(Sphere::new(center, radius, mat))
        } else if choice.lt(Real::from_ratio(19, 20)) {
            let mat = random_metal(rng);
            Some(Sphere::new(center, radius, mat))
        } else {
            Some(
                Sphere::new(
                    center,
                    radius,
                    Surface::Dielectric(Dielectric { ref_idx: Real::from_ratio(3, 2) }),
                ),
            )
        }
    } else {
        None
    }
}

/// The small spheres of the first `count` cells, with the sampler position
/// after them. Cell number `k` is the cell at `(k / 22 - 11, k % 22 - 11)`.
pub open spec fn spec_cells(count: nat, rng: Sampler) -> (Seq<Sphere>, Sampler)
    decreases count,
{
    if count == 0 {
        (Seq::empty(), rng)
    } else {
        let (spheres, mid) = spec_cells((count - 1) as nat, rng);
        let k = count - 1;
        let (found, end) = spec_cell((k / 22 - 11) as i32, (k % 22 - 11) as i32, mid);
        match found {
            Some(s) => (spheres.push(s), end),
            None => (spheres, end),
        }
    }
}

/// The scene drawn from sampler position `rng`: the ground, the small
/// spheres of all cells, and the three large spheres.
pub open spec fn spec_random_scene_from(rng: Sampler) -> Seq<Sphere> {
    seq![spec_ground()] + spec_cells(CELLS as nat, rng).0 + spec_landmarks()
}

/// The scene drawn from sampler position `rng`.
pub fn random_scene_from(rng: Sampler) -> (list: HitableList)
    ensures
        list@ == spec_random_scene_from(rng),
{
    let mut rng = rng;
    let ghost start = rng;
    let mut list: HitableList = Vec::new();
    list.push(
        Sphere::new(
            Vec3::new(Real::zero(), Real::from_int(-1000), Real::zero()),
            Real::from_int(1000),
            Surface::Lambertian(
                Lambertian {
                    albedo: Vec3::new(
                        Real::from_ratio(1, 2),
                        Real::from_ratio(1, 2),
                        Real::from_ratio(1, 2),
                    ),
                },
            ),
        ),
    );
    let mut k: u32 = 0;
    while k < CELLS
        invariant
            k <= CELLS,
            list@ == seq![spec_ground()] + spec_cells(k as nat, start).0,
            rng == spec_cells(k as nat, start).1,
        decreases CELLS - k,
    {
        let a: i32 = (k / 22) as i32 - 11;
        let b: i32 = (k % 22) as i32 - 11;
        let ghost before = list@;
        match cell(a, b, &mut rng) {
            Some(s) => {
                list.push(s);
                assert(list@ =~= seq![spec_ground()] + spec_cells(k as nat, start).0.push(s));
            },
            None => {},
        }
        k = k + 1;
    }
    list.push(
        Sphere::new(
            Vec3::new(Real::zero(), Real::one(), Real::zero()),
            Real::one(),
            Surface::Dielectric(Dielectric { ref_idx: Real::from_ratio(3, 2) }),
        ),
    );
    list.push(
        Sphere::new(
            Vec3::new(Real::from_int(-4), Real::one(), Real::zero()),
            Real::one(),
            Surface::Lambertian(
                Lambertian {
                    albedo: Vec3::new(
                        Real::from_ratio(2, 5),
                        Real::from_ratio(1, 5),
                        Real::from_ratio(1, 10),
                    ),
                },
            ),
        ),
    );
    list.push(
        Sphere::new(
            Vec3::new(Real::from_int(4), Real::one(), Real::zero()),
            Real::one(),
            Surface::Metal(
                Metal::new(
                    Vec3::new(
                        Real::from_ratio(7, 10),
                        Real::from_ratio(3, 5),
                        Real::from_ratio(1, 2),
                    ),
                    Real::zero(),
                ),
            ),
        ),
    );
    assert(list@ =~= spec_random_scene_from(start));
    list
}

/// The scene drawn from the start of the stream [`SCENE_STREAM`] under
/// seed zero.
pub fn random_scene() -> (list: HitableList)
    ensures
        list@ == spec_random_scene_from(Sampler { seed: 0, stream: SCENE_STREAM, counter: 0 }),
{
    random_scene_from(Sampler::new(0, SCENE_STREAM))
}

/// No pixel of any image draws from the scene's stream, so a render under
/// seed zero does not repeat the draws that made the scene.
pub proof fn lemma_no_pixel_has_the_scene_stream(x: u32, y: u32, width: u32)
    ensures
        spec_pixel_stream(x, y, width) != SCENE_STREAM,
{
    assert(y * width + x <= 0xffff_ffff * 0xffff_ffff + 0xffff_ffff) by (nonlinear_arith)
        requires
            0 <= y <= 0xffff_ffff,
            0 <= width <= 0xffff_ffff,
            0 <= x <= 0xffff_ffff,
    ;
}

} // verus!
