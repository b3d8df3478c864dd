//! Reproducible random numbers.
//!
//! A [`Sampler`] is a position in a stream of 32-bit words. The word at a
//! position is the first output of the standard generator keyed with the
//! sampler's seed, stream number and counter, so a draw is a function of the
//! sampler alone and a computation that starts from equal samplers makes
//! equal draws.
use crate::scalar::Real;
use crate::scalar::SCALE;
use crate::vec3::Vec3;
use rand::rngs::StdRng;
use rand::RngCore;
use rand::SeedableRng;
use vstd::prelude::*;

verus! {

/// The first word that `rand::rngs::StdRng` gives when it is seeded with the
/// 32 bytes made of `seed`, `stream` and `counter` (each little-endian, in
/// this order) and eight zero bytes.
/// This is the generator of the version of `rand` that the crate is built
/// with; another version may give other words.
pub uninterp spec fn generator_word(seed: u64, stream: u64, counter: u64) -> u32;

/// Calls `StdRng::from_seed` on the key described at [`generator_word`] and
/// then `RngCore::next_u32` once. The generator is deterministic in its key;
/// the contract names the word and claims nothing else of it.
#[verifier::external_body]
fn draw_word(seed: u64, stream: u64, counter: u64) -> (w: u32)
    ensures
        w == generator_word(seed, stream, counter),
{
    let mut key = [0u8; 32];
    key[0..8].copy_from_slice(&seed.to_le_bytes());
    key[8..16].copy_from_slice(&stream.to_le_bytes());
    key[16..24].copy_from_slice(&counter.to_le_bytes());
    StdRng::from_seed(key).next_u32()
}

/// How many candidates a rejection sampler may draw: as many as a 64-bit
/// counter can count, which no machine draws in its lifetime. Should all of
/// them be rejected, the origin is returned.
pub const MAX_TRIES: u64 = 0xffff_ffff_ffff_ffff;

/// The number in `[0, 1)` that the top 24 bits of `w` spell as a binary
/// fraction.
pub open spec fn spec_unit_from_word(w: u32) -> Real {
    Real { raw: ((w / 256) * 256) as i64 }
}

/// The number in `[0, 1)` that the top 24 bits of `w` spell as a binary
/// fraction.
#[verifier::when_used_as_spec(spec_unit_from_word)]
pub fn unit_from_word(w: u32) -> (r: Real)
    ensures
        r == spec_unit_from_word(w),
        r@ == (w / 256) * 256,
        0 <= r@ < SCALE,
{
    Real::from_raw(((w / 256) as i64) * 256)
}

/// The point of the cube `[-1, 1)^3` that three draws `x`, `y`, `z` from
/// `[0, 1)` stand for.
pub open spec fn spec_cube_point(x: Real, y: Real, z: Real) -> Vec3 {
    (Vec3 { x, y, z }).spec_scale(Real::from_int(2)).spec_sub(
        Vec3 { x: Real::one(), y: Real::one(), z: Real::one() },
    )
}

/// The point of the cube `[-1, 1)^3` that three draws `x`, `y`, `z` from
/// `[0, 1)` stand for.
#[verifier::when_used_as_spec(spec_cube_point)]
pub fn cube_point(x: Real, y: Real, z: Real) -> (p: Vec3)
    ensures
        p == spec_cube_point(x, y, z),
{
    Real::from_int(2) * Vec3::new(x, y, z) - Vec3::new(Real::one(), Real::one(), Real::one())
}

/// The point of the square `[-1, 1)^2` in the plane `z = 0` that two draws
/// `x`, `y` from `[0, 1)` stand for.
pub open spec fn spec_square_point(x: Real, y: Real) -> Vec3 {
    (Vec3 { x, y, z: Real::zero() }).spec_scale(Real::from_int(2)).spec_sub(
        Vec3 { x: Real::one(), y: Real::one(), z: Real::zero() },
    )
}

/// The point of the square `[-1, 1)^2` in the plane `z = 0` that two draws
/// `x`, `y` from `[0, 1)` stand for.
#[verifier::when_used_as_spec(spec_square_point)]
pub fn square_point(x: Real, y: Real) -> (p: Vec3)
    ensures
        p == spec_square_point(x, y),
{
    Real::from_int(2) * Vec3::new(x, y, Real::zero()) - Vec3::new(
        Real::one(),
        Real::one(),
        Real::zero(),
    )
}

/// A position in a stream of random words.
#[derive(Clone, Copy, Debug, PartialEq, Eq, Structural)]
pub struct Sampler {
    pub seed: u64,
    pub stream: u64,
    pub counter: u64,
}

impl Sampler {
    /// The word at this position.
    pub open spec fn spec_word(self) -> u32 {
        generator_word(self.seed, self.stream, self.counter)
    }

    /// The number in `[0, 1)` at this position.
    pub open spec fn spec_unit(self) -> Real {
        spec_unit_from_word(self.spec_word())
    }

    /// The next position. The counter wraps around after its last value.
    pub open spec fn spec_advance(self) -> Sampler {
        Sampler {
            seed: self.seed,
            stream: self.stream,
            counter: if self.counter == u64::MAX {
                0
            } else {
                (self.counter + 1) as u64
            },
        }
    }

    /// The position `n` draws further.
    pub open spec fn spec_skip(self, n: nat) -> Sampler
        decreases n,
    {
        if n == 0 {
            self
        } else {
            self.spec_advance().spec_skip((n - 1) as nat)
        }
    }

    /// The start of stream number `stream` under `seed`.
    pub fn new(seed: u64, stream: u64) -> (s: Sampler)
        ensures
            s == (Sampler { seed, stream, counter: 0 }),
    {
        Sampler { seed, stream, counter: 0 }
    }

    /// Draws the word at this position and moves on by one.
    pub fn next_word(&mut self) -> (w: u32)
        ensures
            w == old(self).spec_word(),
            *final(self) == old(self).spec_advance(),
    {
        let w = draw_word(self.seed, self.stream, self.counter);
        self.counter = if self.counter == u64::MAX {
            0
        } else {
            self.counter + 1
        };
        w
    }

    /// Draws a number in `[0, 1)` and moves on by one.
    pub fn next_unit(&mut self) -> (r: Real)
        ensures
            r == old(self).spec_unit(),
            0 <= r@ < SCALE,
            *final(self) == old(self).spec_advance(),
    {
        let w = self.next_word();
        unit_from_word(w)
    }
}

/// What [`random_in_unit_sphere`] returns from position `rng` when it may
/// still draw `tries` candidates: the first candidate whose squared length is
/// below one, with the position after it.
pub open spec fn spec_random_in_unit_sphere(rng: Sampler, tries: nat) -> (Vec3, Sampler)
    decreases tries,
{
    if tries == 0 {
        (Vec3::zero(), rng)
    } else {
        let p = spec_cube_point(
            rng.spec_unit(),
            rng.spec_advance().spec_unit(),
            rng.spec_advance().spec_advance().spec_unit(),
        );
        let next = rng.spec_advance().spec_advance().spec_advance();
        if p.spec_dot(p)@ < SCALE {
            (p, next)
        } else {
            spec_random_in_unit_sphere(next, (tries - 1) as nat)
        }
    }
}

/// A point inside the unit sphere, by rejection: candidates are drawn from
/// the cube `[-1, 1)^3` until one has a squared length below one. The result
/// is the first such candidate among the first [`MAX_TRIES`], and the sampler
/// has moved on by three draws for every candidate up to it.
pub fn random_in_unit_sphere(rng: &mut Sampler) -> (p: Vec3)
    ensures
        (p, *final(rng)) == spec_random_in_unit_sphere(*old(rng), MAX_TRIES as nat),
        p.spec_dot(p)@ < SCALE,
{
    let mut tries: u64 = MAX_TRIES;
    while tries > 0
        invariant
            spec_random_in_unit_sphere(*rng, tries as nat) == spec_random_in_unit_sphere(
                *old(rng),
                MAX_TRIES as nat,
            ),
        decreases tries,
    {
        let x = rng.next_unit();
        let y = rng.next_unit();
        let z = rng.next_unit();
        let p = cube_point(x, y, z);
        if p.dot(p).lt(Real::one()) {
            return p;
        }
        tries = tries - 1;
    }
    assert(crate::scalar::mul_raw(0, 0) == 0);
    Vec3::zero()
}

/// Skipping `a` draws and then `b` is skipping `a + b`.
pub proof fn lemma_skip_adds(rng: Sampler, a: nat, b: nat)
    ensures
        rng.spec_skip(a).spec_skip(b) == rng.spec_skip(a + b),
    decreases a,
{
    if a > 0 {
        lemma_skip_adds(rng.spec_advance(), (a - 1) as nat, b);
    }
}

/// Candidate number `k` for a point in the unit sphere from position `rng`:
/// the point of the cube that draws number `3 k`, `3 k + 1` and `3 k + 2`
/// stand for.
pub open spec fn spec_sphere_candidate(rng: Sampler, k: nat) -> Vec3 {
    let at = rng.spec_skip(3 * k);
    spec_cube_point(
        at.spec_unit(),
        at.spec_advance().spec_unit(),
        at.spec_advance().spec_advance().spec_unit(),
    )
}

/// Where candidate number `k` is the first with a squared length below one,
/// and `k` is below the number of tries, the sampler returns it and has
/// made `3 (k + 1)` draws.
pub proof fn lemma_first_point_in_sphere(rng: Sampler, k: nat, tries: nat)
    requires
        k < tries,
        forall|j: nat|
            j < k ==> (#[trigger] spec_sphere_candidate(rng, j)).spec_dot(
                spec_sphere_candidate(rng, j),
            )@ >= SCALE,
        spec_sphere_candidate(rng, k).spec_dot(spec_sphere_candidate(rng, k))@ < SCALE,
    ensures
        spec_random_in_unit_sphere(rng, tries) == (
            spec_sphere_candidate(rng, k),
            rng.spec_skip(3 * (k + 1)),
        ),
    decreases k,
{
    reveal_with_fuel(Sampler::spec_skip, 4);
    let next = rng.spec_advance().spec_advance().spec_advance();
    assert(next == rng.spec_skip(3));
    if k == 0 {
        assert(spec_sphere_candidate(rng, 0) == spec_cube_point(
            rng.spec_unit(),
            rng.spec_advance().spec_unit(),
            rng.spec_advance().spec_advance().spec_unit(),
        ));
    } else {
        assert(spec_sphere_candidate(rng, 0).spec_dot(spec_sphere_candidate(rng, 0))@ >= SCALE);
        assert forall|j: nat| j <= k - 1 implies #[trigger] spec_sphere_candidate(next, j)
            == spec_sphere_candidate(rng, j + 1) by {
            lemma_skip_adds(rng, 3, 3 * j);
        }
        assert forall|j: nat| j < k - 1 implies (#[trigger] spec_sphere_candidate(next, j))
            .spec_dot(spec_sphere_candidate(next, j))@ >= SCALE by {
            assert(spec_sphere_candidate(next, j) == spec_sphere_candidate(rng, j + 1));
        }
        lemma_first_point_in_sphere(next, (k - 1) as nat, (tries - 1) as nat);
        lemma_skip_adds(rng, 3, 3 * k);
    }
}

/// Candidate number `k` for a point in the unit disk from position `rng`:
/// the point of the square that draws number `2 k` and `2 k + 1` stand for.
pub open spec fn spec_disk_candidate(rng: Sampler, k: nat) -> Vec3 {
    let at = rng.spec_skip(2 * k);
    spec_square_point(at.spec_unit(), at.spec_advance().spec_unit())
}

/// Where candidate number `k` is the first with a squared length below one,
/// and `k` is below the number of tries, the sampler returns it and has
/// made `2 (k + 1)` draws.
pub proof fn lemma_first_point_in_disk(rng: Sampler, k: nat, tries: nat)
    requires
        k < tries,
        forall|j: nat|
            j < k ==> (#[trigger] spec_disk_candidate(rng, j)).spec_dot(
                spec_disk_candidate(rng, j),
            )@ >= SCALE,
        spec_disk_candidate(rng, k).spec_dot(spec_disk_candidate(rng, k))@ < SCALE,
    ensures
        spec_random_in_unit_disk(rng, tries) == (
            spec_disk_candidate(rng, k),
            rng.spec_skip(2 * (k + 1)),
        ),
    decreases k,
{
    reveal_with_fuel(Sampler::spec_skip, 3);
    let next = rng.spec_advance().spec_advance();
    assert(next == rng.spec_skip(2));
    if k == 0 {
        assert(spec_disk_candidate(rng, 0) == spec_square_point(
            rng.spec_unit(),
            rng.spec_advance().spec_unit(),
        ));
    } else {
        assert(spec_disk_candidate(rng, 0).spec_dot(spec_disk_candidate(rng, 0))@ >= SCALE);
        assert forall|j: nat| j <= k - 1 implies #[trigger] spec_disk_candidate(next, j)
            == spec_disk_candidate(rng, j + 1) by {
            lemma_skip_adds(rng, 2, 2 * j);
        }
        assert forall|j: nat| j < k - 1 implies (#[trigger] spec_disk_candidate(next, j)).spec_dot(
            spec_disk_candidate(next, j),
        )@ >= SCALE by {
            assert(spec_disk_candidate(next, j) == spec_disk_candidate(rng, j + 1));
        }
        lemma_first_point_in_disk(next, (k - 1) as nat, (tries - 1) as nat);
        lemma_skip_adds(rng, 2, 2 * k);
    }
}

/// What [`random_in_unit_disk`] returns from position `rng` when it may still
/// draw `tries` candidates.
pub open spec fn spec_random_in_unit_disk(rng: Sampler, tries: nat) -> (Vec3, Sampler)
    decreases tries,
{
    if tries == 0 {
        (Vec3::zero(), rng)
    } else {
        let p = spec_square_point(rng.spec_unit(), rng.spec_advance().spec_unit());
        let next = rng.spec_advance().spec_advance();
        if p.spec_dot(p)@ < SCALE {
            (p, next)
        } else {
            spec_random_in_unit_disk(next, (tries - 1) as nat)
        }
    }
}

/// A point inside the unit disk of the plane `z = 0`, by rejection: the
/// first candidate of the square `[-1, 1)^2` with a squared length below one
/// among the first [`MAX_TRIES`]. The sampler has moved on by two draws for
/// every candidate up to it.
pub fn random_in_unit_disk(rng: &mut Sampler) -> (p: Vec3)
    ensures
        (p, *final(rng)) == spec_random_in_unit_disk(*old(rng), MAX_TRIES as nat),
        p.spec_dot(p)@ < SCALE,
        p.z@ == 0,
{
    let mut tries: u64 = MAX_TRIES;
    while tries > 0
        invariant
            spec_random_in_unit_disk(*rng, tries as nat) == spec_random_in_unit_disk(
                *old(rng),
                MAX_TRIES as nat,
            ),
        decreases tries,
    {
        let x = rng.next_unit();
        let y = rng.next_unit();
        let p = square_point(x, y);
        if p.dot(p).lt(Real::one()) {
            assert(p.z@ == 0) by {
                assert(crate::scalar::mul_raw(0, 2 * SCALE) == 0);
            }
            return p;
        }
        tries = tries - 1;
    }
    assert(crate::scalar::mul_raw(0, 0) == 0);
    Vec3::zero()
}

} // verus!
