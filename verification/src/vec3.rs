//! Vectors of three fixed-point components.
//!
//! Every operation works component by component on [`Real`], so each
//! component of a result is rounded and clamped as the scalar operation is.
use crate::scalar::div_raw;
use crate::scalar::floor_sqrt;
use crate::scalar::lemma_floor_sqrt_exists;
use crate::scalar::lemma_tdiv_remainder;
use crate::scalar::magnitude;
use crate::scalar::mul_raw;
use crate::scalar::Real;
use crate::scalar::SCALE;
use std::ops::Add;
use std::ops::Div;
use std::ops::Mul;
use std::ops::Neg;
use std::ops::Sub;
use vstd::prelude::*;

verus! {

/// A vector, a point or a colour.
#[derive(Clone, Copy, Debug, PartialEq, Eq, Structural)]
pub struct Vec3 {
    pub x: Real,
    pub y: Real,
    pub z: Real,
}

impl View for Vec3 {
    type V = (int, int, int);

    open spec fn view(&self) -> (int, int, int) {
        (self.x@, self.y@, self.z@)
    }
}

impl Vec3 {
    /// The sum of two vectors.
    pub open spec fn spec_add(self, rhs: Vec3) -> Vec3 {
        Vec3 { x: self.x.spec_add(rhs.x), y: self.y.spec_add(rhs.y), z: self.z.spec_add(rhs.z) }
    }

    /// The difference of two vectors.
    pub open spec fn spec_sub(self, rhs: Vec3) -> Vec3 {
        Vec3 { x: self.x.spec_sub(rhs.x), y: self.y.spec_sub(rhs.y), z: self.z.spec_sub(rhs.z) }
    }

    /// The product of two vectors, component by component.
    pub open spec fn spec_mul(self, rhs: Vec3) -> Vec3 {
        Vec3 { x: self.x.spec_mul(rhs.x), y: self.y.spec_mul(rhs.y), z: self.z.spec_mul(rhs.z) }
    }

    /// The quotient of two vectors, component by component.
    pub open spec fn spec_div(self, rhs: Vec3) -> Vec3 {
        Vec3 { x: self.x.spec_div(rhs.x), y: self.y.spec_div(rhs.y), z: self.z.spec_div(rhs.z) }
    }

    /// The vector with every component multiplied by `k`.
    pub open spec fn spec_scale(self, k: Real) -> Vec3 {
        Vec3 { x: self.x.spec_mul(k), y: self.y.spec_mul(k), z: self.z.spec_mul(k) }
    }

    /// The vector with every component divided by `k`.
    pub open spec fn spec_shrink(self, k: Real) -> Vec3 {
        Vec3 { x: self.x.spec_div(k), y: self.y.spec_div(k), z: self.z.spec_div(k) }
    }

    /// The opposite vector.
    pub open spec fn spec_neg(self) -> Vec3 {
        Vec3 { x: self.x.spec_neg(), y: self.y.spec_neg(), z: self.z.spec_neg() }
    }

    /// The dot product: the three products summed from left to right.
    pub open spec fn spec_dot(self, rhs: Vec3) -> Real {
        self.x.spec_mul(rhs.x).spec_add(self.y.spec_mul(rhs.y)).spec_add(self.z.spec_mul(rhs.z))
    }

    /// The right-handed cross product.
    pub open spec fn spec_cross(self, rhs: Vec3) -> Vec3 {
        Vec3 {
            x: self.y.spec_mul(rhs.z).spec_sub(self.z.spec_mul(rhs.y)),
            y: self.x.spec_mul(rhs.z).spec_sub(self.z.spec_mul(rhs.x)).spec_neg(),
            z: self.x.spec_mul(rhs.y).spec_sub(self.y.spec_mul(rhs.x)),
        }
    }

    /// The Euclidean length: the square root of the dot product with itself.
    pub open spec fn spec_length(self) -> Real {
        self.spec_dot(self).spec_sqrt()
    }

    /// The vector divided by its length. Where the length rounds to zero
    /// the division is one by zero: the zero vector is left as it is, and any
    /// other component goes to the bound on its side.
    pub open spec fn spec_unit_vec(self) -> Vec3 {
        self.spec_shrink(self.spec_length())
    }

    /// The zero vector, which is also the colour black.
    pub open spec fn spec_zero() -> Vec3 {
        Vec3 { x: Real::zero(), y: Real::zero(), z: Real::zero() }
    }

    /// The zero vector, which is also the colour black.
    #[verifier::when_used_as_spec(spec_zero)]
    pub fn zero() -> (v: Vec3)
        ensures
            v == Vec3::spec_zero(),
    {
        Vec3 { x: Real::zero(), y: Real::zero(), z: Real::zero() }
    }

    /// The vector with the given components.
    pub fn new(x: Real, y: Real, z: Real) -> (v: Vec3)
        ensures
            v == (Vec3 { x, y, z }),
    {
        Vec3 { x, y, z }
    }

    /// The Euclidean length.
    #[verifier::when_used_as_spec(spec_length)]
    pub fn length(self) -> (r: Real)
        ensures
            r == self.spec_length(),
    {
        self.dot(self).sqrt()
    }

    /// The vector divided by its length.
    #[verifier::when_used_as_spec(spec_unit_vec)]
    pub fn unit_vec(self) -> (v: Vec3)
        ensures
            v == self.spec_unit_vec(),
    {
        self / self.length()
    }

    /// The dot product.
    #[verifier::when_used_as_spec(spec_dot)]
    pub fn dot(self, rhs: Vec3) -> (r: Real)
        ensures
            r == self.spec_dot(rhs),
    {
        self.x * rhs.x + self.y * rhs.y + self.z * rhs.z
    }

    /// The right-handed cross product.
    #[verifier::when_used_as_spec(spec_cross)]
    pub fn cross(self, rhs: Vec3) -> (v: Vec3)
        ensures
            v == self.spec_cross(rhs),
    {
        Vec3 {
            x: self.y * rhs.z - self.z * rhs.y,
            y: (self.x * rhs.z - self.z * rhs.x).neg(),
            z: self.x * rhs.y - self.y * rhs.x,
        }
    }

    /// Adds `rhs` to the vector in place.
    pub fn add_assign(&mut self, rhs: Vec3)
        ensures
            *final(self) == old(self).spec_add(rhs),
    {
        *self = Vec3 { x: self.x + rhs.x, y: self.y + rhs.y, z: self.z + rhs.z };
    }

    /// Divides every component by `rhs` in place.
    pub fn div_assign(&mut self, rhs: Real)
        ensures
            *final(self) == old(self).spec_shrink(rhs),
    {
        *self = Vec3 { x: self.x / rhs, y: self.y / rhs, z: self.z / rhs };
    }
}

/// The dot product of a vector with itself is never negative.
pub proof fn lemma_dot_self_nonnegative(v: Vec3)
    ensures
        v.spec_dot(v)@ >= 0,
{
    lemma_square_nonnegative(v.x@);
    lemma_square_nonnegative(v.y@);
    lemma_square_nonnegative(v.z@);
}

/// The raw square of a number is never negative.
pub proof fn lemma_square_nonnegative(a: int)
    ensures
        mul_raw(a, a) >= 0,
{
    assert(a * a >= 0) by (nonlinear_arith);
    assert((a * a) / (SCALE as int) >= 0) by (nonlinear_arith)
        requires
            a * a >= 0,
            SCALE > 0,
    ;
}

/// The squared length of `v` without any rounding, in units of 2^-64.
pub open spec fn exact_length_squared(v: Vec3) -> int {
    v.x@ * v.x@ + v.y@ * v.y@ + v.z@ * v.z@
}

/// The largest size of a component for which [`lemma_unit_vec_length`]
/// holds: 16384.
pub open spec fn spec_unit_vec_bound() -> int {
    0x4000_0000_0000
}

/// What rounding takes from a square: `a^2 = s m + rho` with `0 <= rho < s`.
proof fn lemma_square_rounding(a: int, bound: int)
    requires
        -bound <= a <= bound,
    ensures
        0 <= a * a - SCALE * mul_raw(a, a) < SCALE,
        0 <= SCALE * mul_raw(a, a) <= bound * bound,
{
    let s = SCALE as int;
    assert(0 <= a * a <= bound * bound) by (nonlinear_arith)
        requires
            -bound <= a <= bound,
    ;
    lemma_tdiv_remainder(a * a, s);
}

/// One component of a unit vector, squared and scaled by the square of the
/// length `l`: with `r = x s - l u` what rounding took from the quotient,
/// `l^2 u^2 = s^2 x^2 - 2 s x r + r^2`; and `x r` is at most
/// `(l + 2)(l - 1)` where `x` is at most `l + 2` in size.
proof fn lemma_unit_component(s: int, l: int, x: int, u: int)
    requires
        s > 0,
        l >= s,
        -(l + 2) <= x <= l + 2,
        -l < x * s - l * u < l,
        x >= 0 ==> x * s - l * u >= 0,
        x <= 0 ==> x * s - l * u <= 0,
    ensures
        l * l * (u * u) - s * s * (x * x) <= l * l,
        l * l * (u * u) - s * s * (x * x) >= -(2 * (s * (l * l)) + 2 * (l * l)),
{
    let r = x * s - l * u;
    let xr = x * r;
    assert(l * l * (u * u) == s * s * (x * x) - 2 * (s * xr) + r * r) by {
        assert(l * u == x * s - r);
        assert((l * u) * (l * u) == (x * s - r) * (x * s - r));
        assert((l * u) * (l * u) == l * l * (u * u)) by (nonlinear_arith);
        assert((x * s - r) * (x * s - r) == s * s * (x * x) - 2 * (s * xr) + r * r)
            by (nonlinear_arith)
            requires
                xr == x * r,
        ;
    }
    assert(0 <= r * r <= l * l) by (nonlinear_arith)
        requires
            -l < r < l,
    ;
    assert(0 <= xr <= (l + 2) * (l - 1)) by (nonlinear_arith)
        requires
            xr == x * r,
            -(l + 2) <= x <= l + 2,
            -l < r < l,
            x >= 0 ==> r >= 0,
            x <= 0 ==> r <= 0,
    ;
    assert(s * xr <= s * (l * l) + l * l) by (nonlinear_arith)
        requires
            0 <= xr <= (l + 2) * (l - 1),
            0 < s <= l,
    ;
    assert(0 <= s * xr) by (nonlinear_arith)
        requires
            0 <= xr,
            0 < s,
    ;
}

/// A vector that is divided by its length has the length one, up to
/// rounding: for `v` with components of at most 16384 in size and a length
/// of at least one, the exact squared length of `v.unit_vec()` is within
/// 2^-29 of one.
pub proof fn lemma_unit_vec_length(v: Vec3)
    requires
        magnitude(v.x@) <= spec_unit_vec_bound(),
        magnitude(v.y@) <= spec_unit_vec_bound(),
        magnitude(v.z@) <= spec_unit_vec_bound(),
        v.spec_length()@ >= SCALE,
    ensures
        magnitude(exact_length_squared(v.spec_unit_vec()) - SCALE * SCALE) <= 8 * SCALE,
{
    let s = SCALE as int;
    let bound = spec_unit_vec_bound();
    let (x, y, z) = v@;
    lemma_square_rounding(x, bound);
    lemma_square_rounding(y, bound);
    lemma_square_rounding(z, bound);
    assert(bound * bound == 0x1000_0000_0000_0000_0000_0000) by (nonlinear_arith)
        requires
            bound == 0x4000_0000_0000,
    ;
    let dot = mul_raw(x, x) + mul_raw(y, y) + mul_raw(z, z);
    assert(v.spec_dot(v)@ == dot);
    assert(dot > 0);
    lemma_floor_sqrt_exists((dot * s) as nat);
    let l = floor_sqrt(dot * s);
    assert(l * l <= 0x3000_0000_0000_0000_0000_0000);
    assert(l < 0x2_0000_0000_0000) by (nonlinear_arith)
        requires
            0 <= l,
            l * l <= 0x3000_0000_0000_0000_0000_0000,
    ;
    assert(v.spec_length()@ == l);
    let squares = x * x + y * y + z * z;
    assert(l * l <= squares < l * l + 2 * l + 1 + 3 * s) by (nonlinear_arith)
        requires
            l * l <= dot * s < (l + 1) * (l + 1),
            0 <= squares - s * dot < 3 * s,
    ;
    assert(squares < (l + 3) * (l + 3)) by (nonlinear_arith)
        requires
            squares < l * l + 2 * l + 1 + 3 * s,
            0 < s <= l,
    ;
    lemma_component_below_length(x, y, z, l + 3);
    lemma_component_below_length(y, z, x, l + 3);
    lemma_component_below_length(z, x, y, l + 3);
    lemma_tdiv_remainder(x * s, l);
    lemma_tdiv_remainder(y * s, l);
    lemma_tdiv_remainder(z * s, l);
    let u = v.spec_unit_vec();
    assert(u.x@ == div_raw(x, l) && u.y@ == div_raw(y, l) && u.z@ == div_raw(z, l)) by {
        lemma_quotient_below(x, s, l);
        lemma_quotient_below(y, s, l);
        lemma_quotient_below(z, s, l);
    }
    lemma_unit_component(s, l, x, u.x@);
    lemma_unit_component(s, l, y, u.y@);
    lemma_unit_component(s, l, z, u.z@);
    let exact = exact_length_squared(u);
    assert(l * l * exact == l * l * (u.x@ * u.x@) + l * l * (u.y@ * u.y@) + l * l * (u.z@
        * u.z@)) by (nonlinear_arith)
        requires
            exact == u.x@ * u.x@ + u.y@ * u.y@ + u.z@ * u.z@,
    ;
    assert(s * s * squares == s * s * (x * x) + s * s * (y * y) + s * s * (z * z))
        by (nonlinear_arith)
        requires
            squares == x * x + y * y + z * z,
    ;
    let ll = l * l;
    let sll = s * ll;
    assert(0 <= s * s * (squares - ll) <= 5 * sll) by (nonlinear_arith)
        requires
            0 <= squares - ll < 2 * l + 1 + 3 * s,
            0 < s <= l,
            ll == l * l,
            sll == s * ll,
    ;
    assert(s * s * (squares - ll) == s * s * squares - ll * (s * s)) by (nonlinear_arith);
    assert(ll * (exact - s * s) == ll * exact - ll * (s * s)) by (nonlinear_arith);
    assert(-8 * s <= exact - s * s <= 8 * s) by (nonlinear_arith)
        requires
            l >= s,
            s >= 16,
            ll == l * l,
            sll == s * ll,
            ll * (exact - s * s) <= 5 * sll + 3 * ll,
            ll * (exact - s * s) >= -(6 * sll + 6 * ll),
    ;
}

/// One component of a quotient by `l`, squared and scaled by the square of
/// `l`: with `rho = e s - l n` what rounding took from the quotient,
/// `l^2 n^2 = s^2 e^2 - 2 s e rho + rho^2`, so the two squares differ by at
/// most `2 s k l + l^2` where `e` is at most `k` in size.
pub proof fn lemma_quotient_square(s: int, l: int, k: int, e: int, n: int)
    requires
        s > 0,
        l > 0,
        -k <= e <= k,
        -l < e * s - l * n < l,
    ensures
        -(2 * (s * (k * l))) <= l * l * (n * n) - s * s * (e * e) <= 2 * (s * (k * l)) + l * l,
{
    let rho = e * s - l * n;
    let er = e * rho;
    assert(l * l * (n * n) == s * s * (e * e) - 2 * (s * er) + rho * rho) by {
        assert(l * n == e * s - rho);
        assert((l * n) * (l * n) == l * l * (n * n)) by (nonlinear_arith);
        assert((e * s - rho) * (e * s - rho) == s * s * (e * e) - 2 * (s * er) + rho * rho)
            by (nonlinear_arith)
            requires
                er == e * rho,
        ;
    }
    assert(-(k * l) <= er <= k * l) by (nonlinear_arith)
        requires
            er == e * rho,
            -k <= e <= k,
            -l < rho < l,
    ;
    assert(-(s * (k * l)) <= s * er <= s * (k * l)) by (nonlinear_arith)
        requires
            s > 0,
            -(k * l) <= er <= k * l,
    ;
    assert(0 <= rho * rho <= l * l) by (nonlinear_arith)
        requires
            -l < rho < l,
    ;
}

/// A short vector that is divided by its length has the length one, up to
/// a rounding that grows as the vector shrinks: for `v` with a length `l`
/// between 2^-15 and one, the exact squared length of `v.unit_vec()` is
/// within `18 * 2^-32 / l^2` of one.
pub proof fn lemma_short_unit_vec_length(v: Vec3)
    requires
        0x2_0000 <= v.spec_length()@ <= SCALE,
        magnitude(v.x@) <= spec_unit_vec_bound(),
        magnitude(v.y@) <= spec_unit_vec_bound(),
        magnitude(v.z@) <= spec_unit_vec_bound(),
    ensures
        v.spec_length()@ * v.spec_length()@ * magnitude(
            exact_length_squared(v.spec_unit_vec()) - SCALE * SCALE,
        ) <= 18 * (SCALE * (SCALE * SCALE)),
{
    let s = SCALE as int;
    let bound = spec_unit_vec_bound();
    let (x, y, z) = v@;
    lemma_square_rounding(x, bound);
    lemma_square_rounding(y, bound);
    lemma_square_rounding(z, bound);
    assert(bound * bound == 0x1000_0000_0000_0000_0000_0000) by (nonlinear_arith)
        requires
            bound == 0x4000_0000_0000,
    ;
    let dot = mul_raw(x, x) + mul_raw(y, y) + mul_raw(z, z);
    assert(v.spec_dot(v)@ == dot);
    assert(dot > 0);
    lemma_floor_sqrt_exists((dot * s) as nat);
    let l = floor_sqrt(dot * s);
    assert(v.spec_length()@ == l);
    let squares = x * x + y * y + z * z;
    let ll = l * l;
    assert(ll <= squares < ll + 2 * l + 1 + 3 * s) by (nonlinear_arith)
        requires
            ll == l * l,
            l * l <= dot * s < (l + 1) * (l + 1),
            0 <= squares - s * dot < 3 * s,
    ;
    assert(squares < (2 * l) * (2 * l)) by (nonlinear_arith)
        requires
            squares < ll + 2 * l + 1 + 3 * s,
            ll == l * l,
            l >= 0x2_0000,
            s == 0x1_0000_0000,
    ;
    lemma_component_below_length(x, y, z, 2 * l);
    lemma_component_below_length(y, z, x, 2 * l);
    lemma_component_below_length(z, x, y, 2 * l);
    lemma_tdiv_remainder(x * s, l);
    lemma_tdiv_remainder(y * s, l);
    lemma_tdiv_remainder(z * s, l);
    let n = (div_raw(x, l), div_raw(y, l), div_raw(z, l));
    assert(magnitude(n.0) <= 2 * s && magnitude(n.1) <= 2 * s && magnitude(n.2) <= 2 * s)
        by (nonlinear_arith)
        requires
            l > 0,
            s > 0,
            l * magnitude(n.0) <= magnitude(x * s),
            l * magnitude(n.1) <= magnitude(y * s),
            l * magnitude(n.2) <= magnitude(z * s),
            -(2 * l) < x < 2 * l,
            -(2 * l) < y < 2 * l,
            -(2 * l) < z < 2 * l,
    ;
    let u = v.spec_unit_vec();
    assert(u@ == n);
    lemma_quotient_square(s, l, 2 * l, x, n.0);
    lemma_quotient_square(s, l, 2 * l, y, n.1);
    lemma_quotient_square(s, l, 2 * l, z, n.2);
    let exact = exact_length_squared(u);
    let sss = s * (s * s);
    assert(ll * exact == ll * (n.0 * n.0) + ll * (n.1 * n.1) + ll * (n.2 * n.2))
        by (nonlinear_arith)
        requires
            exact == n.0 * n.0 + n.1 * n.1 + n.2 * n.2,
    ;
    assert(s * s * squares == s * s * (x * x) + s * s * (y * y) + s * s * (z * z))
        by (nonlinear_arith)
        requires
            squares == x * x + y * y + z * z,
    ;
    assert(0 <= s * s * (squares - ll) <= 6 * sss) by (nonlinear_arith)
        requires
            0 <= squares - ll < 2 * l + 1 + 3 * s,
            0 < l <= s,
            sss == s * (s * s),
    ;
    assert(s * ((2 * l) * l) <= 2 * sss && ll <= sss) by (nonlinear_arith)
        requires
            0 < l <= s,
            ll == l * l,
            sss == s * (s * s),
    ;
    assert(s * s * (squares - ll) == s * s * squares - ll * (s * s)) by (nonlinear_arith);
    assert(ll * (exact - s * s) == ll * exact - ll * (s * s)) by (nonlinear_arith);
    assert(ll * magnitude(exact - s * s) == magnitude(ll * (exact - s * s))) by (nonlinear_arith)
        requires
            ll >= 0,
    ;
}

/// A component is smaller in size than any bound whose square is above the
/// sum of the three squares.
pub proof fn lemma_component_below_length(a: int, b: int, c: int, bound: int)
    requires
        bound > 0,
        a * a + b * b + c * c < bound * bound,
    ensures
        -bound < a < bound,
{
    assert(-bound < a < bound) by (nonlinear_arith)
        requires
            bound > 0,
            a * a + b * b + c * c < bound * bound,
    ;
}

/// A quotient by a number that is at least one is at most the dividend in
/// size.
proof fn lemma_quotient_below(x: int, s: int, l: int)
    requires
        0 < s <= l,
        l * magnitude(crate::scalar::tdiv(x * s, l)) <= magnitude(x * s),
    ensures
        magnitude(crate::scalar::tdiv(x * s, l)) <= magnitude(x),
{
    let q = magnitude(crate::scalar::tdiv(x * s, l));
    let m = magnitude(x);
    assert(magnitude(x * s) == m * s) by (nonlinear_arith)
        requires
            s > 0,
            m == magnitude(x),
    ;
    assert(q <= m) by (nonlinear_arith)
        requires
            0 < s <= l,
            l * q <= m * s,
            0 <= q,
            0 <= m,
    ;
}

impl Add for Vec3 {
    type Output = Vec3;

    fn add(self, rhs: Vec3) -> (v: Vec3) {
        Vec3 { x: self.x + rhs.x, y: self.y + rhs.y, z: self.z + rhs.z }
    }
}

impl vstd::std_specs::ops::AddSpecImpl for Vec3 {
    open spec fn obeys_add_spec() -> bool {
        true
    }

    open spec fn add_req(self, rhs: Vec3) -> bool {
        true
    }

    open spec fn add_spec(self, rhs: Vec3) -> Vec3 {
        self.spec_add(rhs)
    }
}

impl Sub for Vec3 {
    type Output = Vec3;

    fn sub(self, rhs: Vec3) -> (v: Vec3) {
        Vec3 { x: self.x - rhs.x, y: self.y - rhs.y, z: self.z - rhs.z }
    }
}

impl vstd::std_specs::ops::SubSpecImpl for Vec3 {
    open spec fn obeys_sub_spec() -> bool {
        true
    }

    open spec fn sub_req(self, rhs: Vec3) -> bool {
        true
    }

    open spec fn sub_spec(self, rhs: Vec3) -> Vec3 {
        self.spec_sub(rhs)
    }
}

impl Mul for Vec3 {
    type Output = Vec3;

    fn mul(self, rhs: Vec3) -> (v: Vec3) {
        Vec3 { x: self.x * rhs.x, y: self.y * rhs.y, z: self.z * rhs.z }
    }
}

impl vstd::std_specs::ops::MulSpecImpl for Vec3 {
    open spec fn obeys_mul_spec() -> bool {
        true
    }

    open spec fn mul_req(self, rhs: Vec3) -> bool {
        true
    }

    open spec fn mul_spec(self, rhs: Vec3) -> Vec3 {
        self.spec_mul(rhs)
    }
}

impl Mul<Real> for Vec3 {
    type Output = Vec3;

    fn mul(self, rhs: Real) -> (v: Vec3) {
        Vec3 { x: self.x * rhs, y: self.y * rhs, z: self.z * rhs }
    }
}

impl vstd::std_specs::ops::MulSpecImpl<Real> for Vec3 {
    open spec fn obeys_mul_spec() -> bool {
        true
    }

    open spec fn mul_req(self, rhs: Real) -> bool {
        true
    }

    open spec fn mul_spec(self, rhs: Real) -> Vec3 {
        self.spec_scale(rhs)
    }
}

impl Mul<Vec3> for Real {
    type Output = Vec3;

    fn mul(self, rhs: Vec3) -> (v: Vec3) {
        Vec3 { x: rhs.x * self, y: rhs.y * self, z: rhs.z * self }
    }
}

impl vstd::std_specs::ops::MulSpecImpl<Vec3> for Real {
    open spec fn obeys_mul_spec() -> bool {
        true
    }

    open spec fn mul_req(self, rhs: Vec3) -> bool {
        true
    }

    open spec fn mul_spec(self, rhs: Vec3) -> Vec3 {
        rhs.spec_scale(self)
    }
}

impl Neg for Vec3 {
    type Output = Vec3;

    fn neg(self) -> (v: Vec3) {
        Vec3 { x: self.x.neg(), y: self.y.neg(), z: self.z.neg() }
    }
}

impl vstd::std_specs::ops::NegSpecImpl for Vec3 {
    open spec fn obeys_neg_spec() -> bool {
        true
    }

    open spec fn neg_req(self) -> bool {
        true
    }

    open spec fn neg_spec(self) -> Vec3 {
        self.spec_neg()
    }
}

impl Div for Vec3 {
    type Output = Vec3;

    fn div(self, rhs: Vec3) -> (v: Vec3) {
        Vec3 { x: self.x / rhs.x, y: self.y / rhs.y, z: self.z / rhs.z }
    }
}

impl vstd::std_specs::ops::DivSpecImpl for Vec3 {
    open spec fn obeys_div_spec() -> bool {
        true
    }

    open spec fn div_req(self, rhs: Vec3) -> bool {
        true
    }

    open spec fn div_spec(self, rhs: Vec3) -> Vec3 {
        self.spec_div(rhs)
    }
}

impl Div<Real> for Vec3 {
    type Output = Vec3;

    fn div(self, rhs: Real) -> (v: Vec3) {
        Vec3 { x: self.x / rhs, y: self.y / rhs, z: self.z / rhs }
    }
}

impl vstd::std_specs::ops::DivSpecImpl<Real> for Vec3 {
    open spec fn obeys_div_spec() -> bool {
        true
    }

    open spec fn div_req(self, rhs: Real) -> bool {
        true
    }

    open spec fn div_spec(self, rhs: Real) -> Vec3 {
        self.spec_shrink(rhs)
    }
}

} // verus!
