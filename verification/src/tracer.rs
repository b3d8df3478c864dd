//! The path integrator and the sampling driver.
//!
//! [`color`] follows one ray through the scene. [`render_pixel`] averages
//! the colours of several rays through one pixel and turns the average into
//! three bytes. [`render`] does so for every pixel of an image. Every pixel
//! has a stream of random numbers of its own under the render's seed, so a
//! pixel's bytes depend on nothing but the arguments.
use crate::camera::Camera;
use crate::hitable::spec_closest_hit;
use crate::hitable::Hitable;
use crate::hitable::HitableList;
use crate::hitable::Sphere;
use crate::material::Material;
use crate::ray::Ray;
use crate::sampler::Sampler;
use crate::scalar::Real;
use crate::scalar::SCALE;
use crate::vec3::Vec3;
use vstd::arithmetic::div_mod::lemma_fundamental_div_mod_converse;
use vstd::arithmetic::div_mod::lemma_multiply_divide_lt;
use vstd::prelude::*;

verus! {

/// The distance below which a hit is taken for the surface that the ray has
/// just left: a thousandth.
pub open spec fn spec_epsilon() -> Real {
    Real::from_ratio(1, 1000)
}

/// The colour of the sky at the zenith.
pub open spec fn spec_sky_blue() -> Vec3 {
    Vec3 { x: Real::from_ratio(1, 2), y: Real::from_ratio(7, 10), z: Real::one() }
}

/// The colour of the sky along `r`: white at the nadir, sky blue at the
/// zenith, and between them in proportion to `(y + 1) / 2`, with `y` the
/// height of the unit direction.
pub open spec fn spec_sky(r: Ray) -> Vec3 {
    let unit_direction = r.d.spec_unit_vec();
    let t = Real::from_ratio(1, 2).spec_mul(unit_direction.y.spec_add(Real::one()));
    spec_sky_blue().spec_scale(t).spec_add(
        (Vec3 { x: Real::one(), y: Real::one(), z: Real::one() }).spec_scale(
            Real::one().spec_sub(t),
        ),
    )
}

/// The colour of the sky along `r`.
#[verifier::when_used_as_spec(spec_sky)]
pub fn sky(r: Ray) -> (c: Vec3)
    ensures
        c == spec_sky(r),
{
    let unit_direction = r.direction().unit_vec();
    let t = Real::from_ratio(1, 2) * (unit_direction.y + Real::one());
    t * Vec3::new(Real::from_ratio(1, 2), Real::from_ratio(7, 10), Real::one()) + (Real::one()
        - t) * Vec3::new(Real::one(), Real::one(), Real::one())
}

/// The colour that arrives along `r`, which has bounced `depth` times, from
/// sampler position `rng`, with the position that the sampler is left at.
///
/// A ray that hits nothing beyond [`spec_epsilon`] has the colour of the
/// sky. A ray that hits a surface is scattered by its material; where the
/// material absorbs it, or `depth` has reached `max_depth`, it is black, and
/// else it has the colour of the scattered ray, attenuated channel by
/// channel.
pub open spec fn spec_color(
    r: Ray,
    world: Seq<Sphere>,
    depth: nat,
    max_depth: nat,
    rng: Sampler,
) -> (Vec3, Sampler)
    decreases max_depth - depth,
{
    match spec_closest_hit(world, r, spec_epsilon(), Real::max_value()) {
        Some(rec) => {
            let (scattering, after) = rec.mat.spec_scatter(r, rec.p, rec.normal, rng);
            match scattering {
                Some((attenuation, scattered)) => {
                    if depth < max_depth {
                        let (incoming, end) = spec_color(
                            scattered,
                            world,
                            depth + 1,
                            max_depth,
                            after,
                        );
                        (attenuation.spec_mul(incoming), end)
                    } else {
                        (Vec3::zero(), after)
                    }
                },
                None => (Vec3::zero(), after),
            }
        },
        None => (spec_sky(r), rng),
    }
}

/// The colour that arrives along `r`, which has bounced `depth` times; see
/// [`spec_color`].
pub fn color(r: &Ray, world: &HitableList, depth: u32, max_depth: u32, rng: &mut Sampler) -> (c:
    Vec3)
    ensures
        (c, *final(rng)) == spec_color(*r, world@, depth as nat, max_depth as nat, *old(rng)),
        spec_closest_hit(world@, *r, spec_epsilon(), Real::max_value()) is None ==> c == spec_sky(
            *r,
        ) && *final(rng) == *old(rng),
        spec_closest_hit(world@, *r, spec_epsilon(), Real::max_value()) is Some && depth
            >= max_depth ==> c == Vec3::zero(),
    decreases max_depth - depth,
{
    let eps = Real::from_ratio(1, 1000);
    match world.hit(r, eps, Real::max_value()) {
        Some(rec) => {
            match rec.mat.scatter(r, rec.p, rec.normal, rng) {
                Some((attenuation, scattered)) => {
                    if depth < max_depth {
                        let incoming = color(&scattered, world, depth + 1, max_depth, rng);
                        attenuation * incoming
                    } else {
                        Vec3::zero()
                    }
                },
                None => Vec3::zero(),
            }
        },
        None => sky(*r),
    }
}

/// A ray that hits nothing has the colour of the sky, and draws nothing.
pub proof fn lemma_color_of_miss(r: Ray, world: Seq<Sphere>, depth: nat, max_depth: nat, rng: Sampler)
    requires
        spec_closest_hit(world, r, spec_epsilon(), Real::max_value()) is None,
    ensures
        spec_color(r, world, depth, max_depth, rng) == (spec_sky(r), rng),
{
}

/// A ray that hits a surface after `max_depth` bounces or more is black:
/// the recursion ends there.
pub proof fn lemma_color_at_depth_limit(
    r: Ray,
    world: Seq<Sphere>,
    depth: nat,
    max_depth: nat,
    rng: Sampler,
)
    requires
        depth >= max_depth,
        spec_closest_hit(world, r, spec_epsilon(), Real::max_value()) is Some,
    ensures
        spec_color(r, world, depth, max_depth, rng).0 == Vec3::zero(),
{
}

/// The whole part of `c`, kept within `0 ..= 255`.
pub open spec fn spec_to_byte(c: Real) -> u8 {
    let whole = c@ / (SCALE as int);
    if whole < 0 {
        0
    } else if whole > 255 {
        255
    } else {
        whole as u8
    }
}

/// The whole part of `c`, kept within `0 ..= 255`.
#[verifier::when_used_as_spec(spec_to_byte)]
pub fn to_byte(c: Real) -> (b: u8)
    ensures
        b == spec_to_byte(c),
{
    if c.raw < 0 {
        0
    } else {
        let whole: i64 = c.raw / SCALE;
        if whole > 255 {
            255
        } else {
            whole as u8
        }
    }
}

/// The byte for a colour channel: the whole part of `255.99 * c`, kept
/// within `0 ..= 255`.
pub open spec fn spec_quantize(c: Real) -> u8 {
    spec_to_byte(c.spec_mul(Real::from_ratio(25599, 100)))
}

/// The byte for a colour channel.
#[verifier::when_used_as_spec(spec_quantize)]
pub fn quantize(c: Real) -> (b: u8)
    ensures
        b == spec_quantize(c),
{
    to_byte(c * Real::from_ratio(25599, 100))
}

/// The three bytes of a pixel whose `n_samples` samples sum to `sum`: the
/// average, its square root channel by channel (gamma 2), quantized.
pub open spec fn spec_shade(sum: Vec3, n_samples: u32) -> (u8, u8, u8) {
    let mean = sum.spec_shrink(Real::from_u32(n_samples));
    (
        spec_quantize(mean.x.spec_sqrt()),
        spec_quantize(mean.y.spec_sqrt()),
        spec_quantize(mean.z.spec_sqrt()),
    )
}

/// The three bytes of a pixel whose `n_samples` samples sum to `sum`.
#[verifier::when_used_as_spec(spec_shade)]
pub fn shade(sum: Vec3, n_samples: u32) -> (rgb: (u8, u8, u8))
    ensures
        rgb == spec_shade(sum, n_samples),
{
    let mean = sum / Real::from_u32(n_samples);
    (quantize(mean.x.sqrt()), quantize(mean.y.sqrt()), quantize(mean.z.sqrt()))
}

/// The colour of one sample of pixel `(x, y)`: the ray goes through the
/// place `((x + a) / width, (y + b) / height)` of the image, with `a` and
/// `b` the next two draws.
#[verifier::opaque]
pub open spec fn spec_sample(
    world: Seq<Sphere>,
    cam: Camera,
    x: u32,
    y: u32,
    width: u32,
    height: u32,
    max_depth: u32,
    rng: Sampler,
) -> (Vec3, Sampler) {
    let u = Real::from_u32(x).spec_add(rng.spec_unit()).spec_div(Real::from_u32(width));
    let v = Real::from_u32(y).spec_add(rng.spec_advance().spec_unit()).spec_div(
        Real::from_u32(height),
    );
    let (r, after) = cam.spec_get_ray(u, v, rng.spec_advance().spec_advance());
    spec_color(r, world, 0, max_depth as nat, after)
}

/// The colour of one sample of pixel `(x, y)`.
pub fn sample(
    world: &HitableList,
    cam: &Camera,
    x: u32,
    y: u32,
    width: u32,
    height: u32,
    max_depth: u32,
    rng: &mut Sampler,
) -> (c: Vec3)
    ensures
        (c, *final(rng)) == spec_sample(world@, *cam, x, y, width, height, max_depth, *old(rng)),
{
    proof {
        reveal(spec_sample);
    }
    let a = rng.next_unit();
    let u = (Real::from_u32(x) + a) / Real::from_u32(width);
    let b = rng.next_unit();
    let v = (Real::from_u32(y) + b) / Real::from_u32(height);
    let r = cam.get_ray(u, v, rng);
    color(&r, world, 0, max_depth, rng)
}

/// The sum of the first `count` samples of pixel `(x, y)` from sampler
/// position `rng`.
pub open spec fn spec_accumulate(
    world: Seq<Sphere>,
    cam: Camera,
    x: u32,
    y: u32,
    width: u32,
    height: u32,
    count: nat,
    max_depth: u32,
    rng: Sampler,
) -> (Vec3, Sampler)
    decreases count,
{
    if count == 0 {
        (Vec3::zero(), rng)
    } else {
        let (sum, mid) = spec_accumulate(
            world,
            cam,
            x,
            y,
            width,
            height,
            (count - 1) as nat,
            max_depth,
            rng,
        );
        let (c, end) = spec_sample(world, cam, x, y, width, height, max_depth, mid);
        (sum.spec_add(c), end)
    }
}

/// The number of pixel `(x, y)` in an image `width` wide, rows from top to
/// bottom: the number of the pixel's stream of random numbers.
pub open spec fn spec_pixel_stream(x: u32, y: u32, width: u32) -> u64 {
    (y * width + x) as u64
}

/// The three bytes of pixel `(x, y)`: `n_samples` samples from the start of
/// the pixel's stream under `seed`, shaded.
#[verifier::opaque]
pub open spec fn spec_render_pixel(
    world: Seq<Sphere>,
    cam: Camera,
    x: u32,
    y: u32,
    width: u32,
    height: u32,
    n_samples: u32,
    max_depth: u32,
    seed: u64,
) -> (u8, u8, u8) {
    let start = Sampler { seed, stream: spec_pixel_stream(x, y, width), counter: 0 };
    spec_shade(
        spec_accumulate(world, cam, x, y, width, height, n_samples as nat, max_depth, start).0,
        n_samples,
    )
}

/// The three bytes of pixel `(x, y)` of an image `width` by `height`.
pub fn render_pixel(
    world: &HitableList,
    cam: &Camera,
    x: u32,
    y: u32,
    width: u32,
    height: u32,
    n_samples: u32,
    max_depth: u32,
    seed: u64,
) -> (rgb: (u8, u8, u8))
    ensures
        rgb == spec_render_pixel(world@, *cam, x, y, width, height, n_samples, max_depth, seed),
{
    proof {
        reveal(spec_render_pixel);
    }
    assert(y * width + x <= 0xffff_ffff * 0xffff_ffff + 0xffff_ffff) by (nonlinear_arith)
        requires
            0 <= y <= 0xffff_ffff,
            0 <= width <= 0xffff_ffff,
            0 <= x <= 0xffff_ffff,
    ;
    let mut rng = Sampler::new(seed, (y as u64) * (width as u64) + (x as u64));
    let ghost start = rng;
    let mut sum = Vec3::zero();
    let mut k: u32 = 0;
    while k < n_samples
        invariant
            k <= n_samples,
            (sum, rng) == spec_accumulate(
                world@,
                *cam,
                x,
                y,
                width,
                height,
                k as nat,
                max_depth,
                start,
            ),
        decreases n_samples - k,
    {
        let c = sample(world, cam, x, y, width, height, max_depth, &mut rng);
        sum.add_assign(c);
        k = k + 1;
    }
    shade(sum, n_samples)
}

/// Byte number `i` of an image: channel `i % 3` of pixel number `i / 3`,
/// which is the pixel in column `(i / 3) % width` of row `(i / 3) / width`.
pub open spec fn spec_render_byte(
    world: Seq<Sphere>,
    cam: Camera,
    width: u32,
    height: u32,
    n_samples: u32,
    max_depth: u32,
    seed: u64,
    i: int,
) -> u8 {
    let pixel = i / 3;
    let rgb = spec_render_pixel(
        world,
        cam,
        (pixel % (width as int)) as u32,
        (pixel / (width as int)) as u32,
        width,
        height,
        n_samples,
        max_depth,
        seed,
    );
    if i % 3 == 0 {
        rgb.0
    } else if i % 3 == 1 {
        rgb.1
    } else {
        rgb.2
    }
}

/// The image: three bytes (red, green, blue) for each pixel, row after row
/// from the top, each row from the left.
pub open spec fn spec_render(
    world: Seq<Sphere>,
    cam: Camera,
    width: u32,
    height: u32,
    n_samples: u32,
    max_depth: u32,
    seed: u64,
) -> Seq<u8> {
    Seq::new(
        (3 * (width * height)) as nat,
        |i: int| spec_render_byte(world, cam, width, height, n_samples, max_depth, seed, i),
    )
}

/// Renders the scene `world` as seen by `cam` into an image `width` by
/// `height`, with `n_samples` rays through each pixel that bounce at most
/// `max_depth` times. The result is a function of the arguments: two
/// renders with equal arguments give equal images.
pub fn render(
    world: &HitableList,
    cam: &Camera,
    width: u32,
    height: u32,
    n_samples: u32,
    max_depth: u32,
    seed: u64,
) -> (buf: Vec<u8>)
    requires
        3 * (width * height) <= usize::MAX,
    ensures
        buf@ == spec_render(world@, *cam, width, height, n_samples, max_depth, seed),
{
    let mut buf: Vec<u8> = Vec::new();
    assert(width * height <= 0xffff_ffff * 0xffff_ffff) by (nonlinear_arith)
        requires
            0 <= width <= 0xffff_ffff,
            0 <= height <= 0xffff_ffff,
    ;
    let total: u64 = (width as u64) * (height as u64);
    let mut i: u64 = 0;
    while i < total
        invariant
            i <= total,
            total == width * height,
            buf@.len() == 3 * i,
            forall|j: int|
                0 <= j < buf@.len() ==> buf@[j] == spec_render_byte(
                    world@,
                    *cam,
                    width,
                    height,
                    n_samples,
                    max_depth,
                    seed,
                    j,
                ),
        decreases total - i,
    {
        assert(width > 0) by (nonlinear_arith)
            requires
                0 <= i < width * height,
                0 <= width,
        ;
        proof {
            lemma_multiply_divide_lt(i as int, width as int, height as int);
        }
        let x: u32 = (i % (width as u64)) as u32;
        let y: u32 = (i / (width as u64)) as u32;
        let rgb = render_pixel(world, cam, x, y, width, height, n_samples, max_depth, seed);
        let ghost before = buf@;
        buf.push(rgb.0);
        buf.push(rgb.1);
        buf.push(rgb.2);
        assert forall|j: int| 0 <= j < buf@.len() implies buf@[j] == spec_render_byte(
            world@,
            *cam,
            width,
            height,
            n_samples,
            max_depth,
            seed,
            j,
        ) by {
            if j < before.len() {
                assert(buf@[j] == before[j]);
            } else {
                assert(j / 3 == i);
            }
        }
        i = i + 1;
    }
    buf
}

/// The bytes of pixel `(x, y)` stand at `3 * (y * width + x)` in the image.
pub proof fn lemma_render_layout(
    world: Seq<Sphere>,
    cam: Camera,
    x: u32,
    y: u32,
    width: u32,
    height: u32,
    n_samples: u32,
    max_depth: u32,
    seed: u64,
)
    requires
        x < width,
        y < height,
    ensures
        ({
            let image = spec_render(world, cam, width, height, n_samples, max_depth, seed);
            let at = 3 * (y * width + x);
            &&& at + 2 < image.len()
            &&& (image[at], image[at + 1], image[at + 2]) == spec_render_pixel(
                world,
                cam,
                x,
                y,
                width,
                height,
                n_samples,
                max_depth,
                seed,
            )
        }),
{
    let pixel = y * width + x;
    lemma_fundamental_div_mod_converse(pixel, width as int, y as int, x as int);
    assert((3 * pixel) / 3 == pixel && (3 * pixel + 1) / 3 == pixel && (3 * pixel + 2) / 3
        == pixel);
    assert(pixel < width * height) by (nonlinear_arith)
        requires
            pixel == y * width + x,
            0 <= x < width,
            0 <= y < height,
    ;
}

} // verus!
