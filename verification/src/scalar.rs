//! Fixed-point scalars.
//!
//! A [`Real`] stores a number as a signed 64-bit integer that counts units of
//! 2^-32. Its view is that integer. Every operation is total: a result that
//! leaves the representable range is clamped to the nearest bound, products
//! and quotients are rounded toward zero, and a division by zero yields the
//! bound on the side of the dividend's sign (zero for a zero dividend).
use std::ops::Add;
use std::ops::Div;
use std::ops::Mul;
use std::ops::Neg;
use std::ops::Sub;
use vstd::arithmetic::div_mod::lemma_div_is_ordered;
use vstd::arithmetic::div_mod::lemma_div_multiples_vanish;
use vstd::arithmetic::div_mod::lemma_fundamental_div_mod;
use vstd::arithmetic::div_mod::lemma_mod_pos_bound;
use vstd::arithmetic::div_mod::lemma_div_pos_is_pos;
use vstd::prelude::*;

verus! {

/// The raw value that stands for the number one.
pub const SCALE: i64 = 0x1_0000_0000;

/// Clamps an integer into the range of raw values.
pub open spec fn sat(x: int) -> int {
    if x < i64::MIN as int {
        i64::MIN as int
    } else if x > i64::MAX as int {
        i64::MAX as int
    } else {
        x
    }
}

/// The absolute value of an integer.
pub open spec fn magnitude(x: int) -> int {
    if x < 0 {
        -x
    } else {
        x
    }
}

/// The quotient `n / d` rounded toward zero, for `d != 0`.
pub open spec fn tdiv(n: int, d: int) -> int {
    if (n < 0) == (d < 0) {
        magnitude(n) / magnitude(d)
    } else {
        -(magnitude(n) / magnitude(d))
    }
}

/// The raw value of a product: the exact product of the raw values over
/// [`SCALE`], rounded toward zero. Not yet clamped.
pub open spec fn mul_raw(a: int, b: int) -> int {
    tdiv(a * b, SCALE as int)
}

/// The raw value of a quotient by a number other than zero: the dividend's
/// raw value times [`SCALE`] over the divisor's, rounded toward zero. Not
/// yet clamped.
pub open spec fn div_raw(a: int, b: int) -> int {
    tdiv(a * SCALE, b)
}

/// `r` is the integer part of the square root of `n`.
pub open spec fn is_floor_sqrt(n: int, r: int) -> bool {
    0 <= r && r * r <= n < (r + 1) * (r + 1)
}

/// The integer part of the square root of `n`, for `n >= 0`.
pub open spec fn floor_sqrt(n: int) -> int {
    choose|r: int| is_floor_sqrt(n, r)
}

/// The integer part of a square root is unique.
pub proof fn lemma_floor_sqrt_unique(n: int, r: int)
    requires
        is_floor_sqrt(n, r),
    ensures
        floor_sqrt(n) == r,
{
    let q = floor_sqrt(n);
    assert(is_floor_sqrt(n, q));
    if q < r {
        assert((q + 1) * (q + 1) <= r * r) by (nonlinear_arith)
            requires
                0 <= q + 1 <= r,
        ;
    }
    if r < q {
        assert((r + 1) * (r + 1) <= q * q) by (nonlinear_arith)
            requires
                0 <= r + 1 <= q,
        ;
    }
}

/// Every natural number has an integer part of its square root.
pub proof fn lemma_floor_sqrt_exists(n: nat)
    ensures
        is_floor_sqrt(n as int, floor_sqrt(n as int)),
    decreases n,
{
    if n == 0 {
        assert(is_floor_sqrt(0, 0));
    } else {
        lemma_floor_sqrt_exists((n - 1) as nat);
        let r = floor_sqrt(n - 1);
        if n < (r + 1) * (r + 1) {
            assert(is_floor_sqrt(n as int, r));
        } else {
            assert((r + 1) * (r + 1) < (r + 2) * (r + 2)) by (nonlinear_arith)
                requires
                    0 <= r,
            ;
            assert(is_floor_sqrt(n as int, r + 1));
        }
    }
}

/// Rounding toward zero keeps the order of the dividends.
pub proof fn lemma_tdiv_monotone(n1: int, n2: int, d: int)
    requires
        n1 <= n2,
        d > 0,
    ensures
        tdiv(n1, d) <= tdiv(n2, d),
{
    if n1 >= 0 {
        lemma_div_is_ordered(n1, n2, d);
    } else if n2 >= 0 {
        lemma_div_pos_is_pos(-n1, d);
        lemma_div_pos_is_pos(n2, d);
    } else {
        lemma_div_is_ordered(-n2, -n1, d);
    }
}

/// Rounding toward zero moves a quotient by less than one, and never away
/// from zero.
pub proof fn lemma_tdiv_remainder(x: int, d: int)
    requires
        d > 0,
    ensures
        magnitude(x - d * tdiv(x, d)) < d,
        d * magnitude(tdiv(x, d)) <= magnitude(x),
        x >= 0 ==> x - d * tdiv(x, d) >= 0 && tdiv(x, d) >= 0,
        x <= 0 ==> x - d * tdiv(x, d) <= 0 && tdiv(x, d) <= 0,
{
    let m = magnitude(x);
    lemma_fundamental_div_mod(m, d);
    lemma_mod_pos_bound(m, d);
    lemma_div_pos_is_pos(m, d);
    if x < 0 {
        assert(d * (-(m / d)) == -(d * (m / d))) by (nonlinear_arith);
    }
}

/// A whole multiple of the divisor is divided without rounding.
pub proof fn lemma_tdiv_of_multiple(c: int, d: int)
    requires
        d > 0,
    ensures
        tdiv(d * c, d) == c,
{
    let m = magnitude(c);
    lemma_div_multiples_vanish(m, d);
    assert(magnitude(d * c) == d * m && (c < 0 ==> d * c < 0) && (c >= 0 ==> d * c >= 0))
        by (nonlinear_arith)
        requires
            d > 0,
            m == magnitude(c),
    ;
}

/// The product of two numbers of at most `a` and `b` in size is at most
/// `a * b` in size.
pub proof fn lemma_mul_bound(x: int, a: int, y: int, b: int)
    requires
        -a <= x <= a,
        -b <= y <= b,
    ensures
        -(a * b) <= x * y <= a * b,
{
    assert(-(a * b) <= x * y <= a * b) by (nonlinear_arith)
        requires
            -a <= x <= a,
            -b <= y <= b,
    ;
}

/// A number whose multiple by a positive `a` is at most `a * b` in size is
/// at most `b` in size.
pub proof fn lemma_cancel(a: int, x: int, b: int)
    requires
        a > 0,
        -(a * b) <= a * x <= a * b,
    ensures
        -b <= x <= b,
{
    assert(-b <= x <= b) by (nonlinear_arith)
        requires
            a > 0,
            -(a * b) <= a * x <= a * b,
    ;
}

/// What rounding takes from a product: less than one unit, toward zero.
pub proof fn lemma_rounding(x: int, y: int)
    ensures
        -SCALE < x * y - SCALE * mul_raw(x, y) < SCALE,
        x * y >= 0 ==> 0 <= x * y - SCALE * mul_raw(x, y),
        SCALE * magnitude(mul_raw(x, y)) <= magnitude(x * y),
{
    lemma_tdiv_remainder(x * y, SCALE as int);
}

/// A fixed-point number with 32 fractional bits.
#[derive(Clone, Copy, Debug, PartialEq, Eq, Structural)]
pub struct Real {
    pub raw: i64,
}

impl View for Real {
    type V = int;

    open spec fn view(&self) -> int {
        self.raw as int
    }
}

/// The magnitude of a raw value, which always fits 64 unsigned bits.
fn mag(x: i64) -> (m: u128)
    ensures
        m == magnitude(x as int),
        m <= 0x8000_0000_0000_0000,
{
    if x < 0 {
        (-(x as i128)) as u128
    } else {
        x as u128
    }
}

/// The number with the given sign and magnitude, clamped.
fn signed(negative: bool, q: u128) -> (r: Real)
    ensures
        r == Real::of(
            if negative {
                -(q as int)
            } else {
                q as int
            },
        ),
{
    if negative {
        if q >= 0x8000_0000_0000_0000 {
            Real { raw: i64::MIN }
        } else {
            Real { raw: -(q as i64) }
        }
    } else {
        if q > 0x7fff_ffff_ffff_ffff {
            Real { raw: i64::MAX }
        } else {
            Real { raw: q as i64 }
        }
    }
}

/// The integer part of the square root of `n`, found by bisection.
fn isqrt(n: u128) -> (r: u128)
    requires
        n < 0x1_0000_0000_0000_0000_0000_0000,
    ensures
        is_floor_sqrt(n as int, r as int),
        r < 0x1_0000_0000_0000,
{
    let mut lo: u128 = 0;
    let mut hi: u128 = 0x1_0000_0000_0000;
    assert(0x1_0000_0000_0000u128 * 0x1_0000_0000_0000u128 == 0x1_0000_0000_0000_0000_0000_0000u128)
        by (nonlinear_arith);
    while hi - lo > 1
        invariant
            lo < hi <= 0x1_0000_0000_0000,
            lo * lo <= n < hi * hi,
        decreases hi - lo,
    {
        let mid: u128 = lo + (hi - lo) / 2;
        assert(mid * mid <= 0x1_0000_0000_0000 * 0x1_0000_0000_0000) by (nonlinear_arith)
            requires
                0 <= mid <= 0x1_0000_0000_0000,
        ;
        if mid * mid <= n {
            lo = mid;
        } else {
            hi = mid;
        }
    }
    lo
}

impl Real {
    /// The number whose raw value is `x` clamped into range.
    pub open spec fn of(x: int) -> Real {
        Real { raw: sat(x) as i64 }
    }

    /// The sum, clamped.
    pub open spec fn spec_add(self, rhs: Real) -> Real {
        Real::of(self@ + rhs@)
    }

    /// The difference, clamped.
    pub open spec fn spec_sub(self, rhs: Real) -> Real {
        Real::of(self@ - rhs@)
    }

    /// The negation, clamped.
    pub open spec fn spec_neg(self) -> Real {
        Real::of(-self@)
    }

    /// The product, rounded toward zero and clamped.
    pub open spec fn spec_mul(self, rhs: Real) -> Real {
        Real::of(mul_raw(self@, rhs@))
    }

    /// The quotient, rounded toward zero and clamped. A division by zero
    /// gives the bound on the side of the dividend's sign, and zero for a
    /// zero dividend.
    pub open spec fn spec_div(self, rhs: Real) -> Real {
        if rhs@ == 0 {
            if self@ > 0 {
                Real { raw: i64::MAX }
            } else if self@ < 0 {
                Real { raw: i64::MIN }
            } else {
                Real { raw: 0 }
            }
        } else {
            Real::of(div_raw(self@, rhs@))
        }
    }

    /// The number with the given raw value.
    pub open spec fn spec_from_raw(raw: i64) -> Real {
        Real { raw }
    }

    /// The number with the given raw value.
    #[verifier::when_used_as_spec(spec_from_raw)]
    pub fn from_raw(raw: i64) -> (r: Real)
        ensures
            r == Real::spec_from_raw(raw),
            r@ == raw,
    {
        Real { raw }
    }

    /// Zero.
    pub open spec fn spec_zero() -> Real {
        Real { raw: 0 }
    }

    /// Zero.
    #[verifier::when_used_as_spec(spec_zero)]
    pub fn zero() -> (r: Real)
        ensures
            r == Real::spec_zero(),
            r@ == 0,
    {
        Real { raw: 0 }
    }

    /// One.
    pub open spec fn spec_one() -> Real {
        Real { raw: SCALE }
    }

    /// One.
    #[verifier::when_used_as_spec(spec_one)]
    pub fn one() -> (r: Real)
        ensures
            r == Real::spec_one(),
            r@ == SCALE,
    {
        Real { raw: SCALE }
    }

    /// The largest number, which also stands for an unbounded distance.
    pub open spec fn spec_max_value() -> Real {
        Real { raw: i64::MAX }
    }

    /// The largest number, which also stands for an unbounded distance.
    #[verifier::when_used_as_spec(spec_max_value)]
    pub fn max_value() -> (r: Real)
        ensures
            r == Real::spec_max_value(),
            r@ == i64::MAX,
    {
        Real { raw: i64::MAX }
    }

    /// The whole number `n`, exactly.
    pub open spec fn spec_from_int(n: i32) -> Real {
        Real { raw: (n * SCALE) as i64 }
    }

    /// The whole number `n`, exactly.
    #[verifier::when_used_as_spec(spec_from_int)]
    pub fn from_int(n: i32) -> (r: Real)
        ensures
            r == Real::spec_from_int(n),
            r@ == n * SCALE,
    {
        Real { raw: (n as i64) * SCALE }
    }

    /// The whole number `n`, clamped to the largest number.
    pub open spec fn spec_from_u32(n: u32) -> Real {
        Real::of(n * SCALE)
    }

    /// The whole number `n`, clamped to the largest number.
    #[verifier::when_used_as_spec(spec_from_u32)]
    pub fn from_u32(n: u32) -> (r: Real)
        ensures
            r == Real::spec_from_u32(n),
    {
        if n > 0x7fff_ffff {
            Real { raw: i64::MAX }
        } else {
            Real { raw: (n as i64) * SCALE }
        }
    }

    /// The quotient of two whole numbers, rounded toward zero.
    pub open spec fn spec_from_ratio(num: i32, den: i32) -> Real {
        Real::spec_from_int(num).spec_div(Real::spec_from_int(den))
    }

    /// The quotient of two whole numbers, rounded toward zero.
    #[verifier::when_used_as_spec(spec_from_ratio)]
    pub fn from_ratio(num: i32, den: i32) -> (r: Real)
        ensures
            r == Real::spec_from_ratio(num, den),
    {
        Real::from_int(num) / Real::from_int(den)
    }

    /// Whether `self` is less than `rhs`.
    pub fn lt(self, rhs: Real) -> (b: bool)
        ensures
            b == (self@ < rhs@),
    {
        self.raw < rhs.raw
    }

    /// Whether `self` is at most `rhs`.
    pub fn le(self, rhs: Real) -> (b: bool)
        ensures
            b == (self@ <= rhs@),
    {
        self.raw <= rhs.raw
    }

    /// Whether `self` is greater than `rhs`.
    pub fn gt(self, rhs: Real) -> (b: bool)
        ensures
            b == (self@ > rhs@),
    {
        self.raw > rhs.raw
    }

    /// Whether `self` is at least `rhs`.
    pub fn ge(self, rhs: Real) -> (b: bool)
        ensures
            b == (self@ >= rhs@),
    {
        self.raw >= rhs.raw
    }

    /// The smaller of two numbers.
    pub open spec fn spec_min(self, rhs: Real) -> Real {
        if self@ <= rhs@ {
            self
        } else {
            rhs
        }
    }

    /// The smaller of two numbers.
    #[verifier::when_used_as_spec(spec_min)]
    pub fn min(self, rhs: Real) -> (r: Real)
        ensures
            r == self.spec_min(rhs),
    {
        if self.raw <= rhs.raw {
            self
        } else {
            rhs
        }
    }

    /// The square root rounded down; zero for a number that is not positive.
    pub open spec fn spec_sqrt(self) -> Real {
        if self@ <= 0 {
            Real { raw: 0 }
        } else {
            Real::of(floor_sqrt(self@ * SCALE))
        }
    }

    /// The square root rounded down; zero for a number that is not positive.
    #[verifier::when_used_as_spec(spec_sqrt)]
    pub fn sqrt(self) -> (r: Real)
        ensures
            r == self.spec_sqrt(),
            r@ >= 0,
            self@ > 0 ==> is_floor_sqrt(self@ * SCALE, r@),
    {
        if self.raw <= 0 {
            Real { raw: 0 }
        } else {
            let n: u128 = (self.raw as u128) * (SCALE as u128);
            let root: u128 = isqrt(n);
            proof {
                lemma_floor_sqrt_unique(n as int, root as int);
            }
            Real { raw: root as i64 }
        }
    }

    /// `self` multiplied by itself `n` times, starting from one.
    pub open spec fn spec_powi(self, n: nat) -> Real
        decreases n,
    {
        if n == 0 {
            Real { raw: SCALE }
        } else {
            self.spec_powi((n - 1) as nat).spec_mul(self)
        }
    }

    /// The `n`-th power, each product rounded in turn.
    pub fn powi(self, n: u32) -> (r: Real)
        ensures
            r == self.spec_powi(n as nat),
    {
        let mut acc: Real = Real::one();
        let mut i: u32 = 0;
        while i < n
            invariant
                i <= n,
                acc == self.spec_powi(i as nat),
            decreases n - i,
        {
            acc = acc * self;
            i = i + 1;
        }
        acc
    }
}

/// A square root is never negative.
pub proof fn lemma_sqrt_nonnegative(x: Real)
    ensures
        x.spec_sqrt()@ >= 0,
{
    if x@ > 0 {
        lemma_floor_sqrt_exists((x@ * SCALE) as nat);
    }
}

/// Dividing by a number that is not negative keeps the order of the
/// dividends.
pub proof fn lemma_div_monotone(x1: Real, x2: Real, a: Real)
    requires
        x1@ <= x2@,
        a@ >= 0,
    ensures
        x1.spec_div(a)@ <= x2.spec_div(a)@,
{
    if a@ > 0 {
        lemma_tdiv_monotone(x1@ * SCALE, x2@ * SCALE, a@);
    }
}

impl Add for Real {
    type Output = Real;

    fn add(self, rhs: Real) -> (r: Real) {
        let s: i128 = self.raw as i128 + rhs.raw as i128;
        if s < i64::MIN as i128 {
            Real { raw: i64::MIN }
        } else if s > i64::MAX as i128 {
            Real { raw: i64::MAX }
        } else {
            Real { raw: s as i64 }
        }
    }
}

impl vstd::std_specs::ops::AddSpecImpl for Real {
    open spec fn obeys_add_spec() -> bool {
        true
    }

    open spec fn add_req(self, rhs: Real) -> bool {
        true
    }

    open spec fn add_spec(self, rhs: Real) -> Real {
        self.spec_add(rhs)
    }
}

impl Sub for Real {
    type Output = Real;

    fn sub(self, rhs: Real) -> (r: Real) {
        let s: i128 = self.raw as i128 - rhs.raw as i128;
        if s < i64::MIN as i128 {
            Real { raw: i64::MIN }
        } else if s > i64::MAX as i128 {
            Real { raw: i64::MAX }
        } else {
            Real { raw: s as i64 }
        }
    }
}

impl vstd::std_specs::ops::SubSpecImpl for Real {
    open spec fn obeys_sub_spec() -> bool {
        true
    }

    open spec fn sub_req(self, rhs: Real) -> bool {
        true
    }

    open spec fn sub_spec(self, rhs: Real) -> Real {
        self.spec_sub(rhs)
    }
}

impl Neg for Real {
    type Output = Real;

    fn neg(self) -> (r: Real) {
        if self.raw == i64::MIN {
            Real { raw: i64::MAX }
        } else {
            Real { raw: -self.raw }
        }
    }
}

impl vstd::std_specs::ops::NegSpecImpl for Real {
    open spec fn obeys_neg_spec() -> bool {
        true
    }

    open spec fn neg_req(self) -> bool {
        true
    }

    open spec fn neg_spec(self) -> Real {
        self.spec_neg()
    }
}

impl Mul for Real {
    type Output = Real;

    fn mul(self, rhs: Real) -> (r: Real) {
        let negative = (self.raw < 0) != (rhs.raw < 0);
        let a: u128 = mag(self.raw);
        let b: u128 = mag(rhs.raw);
        proof {
            let x = self@;
            let y = rhs@;
            assert(a * b <= 0x8000_0000_0000_0000 * 0x8000_0000_0000_0000) by (nonlinear_arith)
                requires
                    0 <= a <= 0x8000_0000_0000_0000,
                    0 <= b <= 0x8000_0000_0000_0000,
            ;
            assert(magnitude(x * y) == a * b && (negative ==> x * y <= 0) && (!negative ==> x * y
                >= 0)) by (nonlinear_arith)
                requires
                    negative == ((x < 0) != (y < 0)),
                    a == if x < 0 {
                        -x
                    } else {
                        x
                    },
                    b == if y < 0 {
                        -y
                    } else {
                        y
                    },
            ;
        }
        let scale: u128 = 0x1_0000_0000;
        let q: u128 = (a * b) / scale;
        proof {
            let x = self@;
            let y = rhs@;
            assert(magnitude(SCALE as int) == scale);
            assert(magnitude(x * y) / magnitude(SCALE as int) == q);
            if x * y == 0 {
                assert(q == 0);
            }
            assert(tdiv(x * y, SCALE as int) == if negative {
                -(q as int)
            } else {
                q as int
            });
        }
        let r = signed(negative, q);
        assert(r == Real::of(mul_raw(self@, rhs@)));
        r
    }
}

impl vstd::std_specs::ops::MulSpecImpl for Real {
    open spec fn obeys_mul_spec() -> bool {
        true
    }

    open spec fn mul_req(self, rhs: Real) -> bool {
        true
    }

    open spec fn mul_spec(self, rhs: Real) -> Real {
        self.spec_mul(rhs)
    }
}

impl Div for Real {
    type Output = Real;

    fn div(self, rhs: Real) -> (r: Real) {
        if rhs.raw == 0 {
            if self.raw > 0 {
                Real { raw: i64::MAX }
            } else if self.raw < 0 {
                Real { raw: i64::MIN }
            } else {
                Real { raw: 0 }
            }
        } else {
            let negative = (self.raw < 0) != (rhs.raw < 0);
            let a: u128 = mag(self.raw);
            let b: u128 = mag(rhs.raw);
            let scale: u128 = 0x1_0000_0000;
            let q: u128 = (a * scale) / b;
            proof {
                let x = self@;
                let y = rhs@;
                assert(magnitude(x * SCALE) == a * scale);
                assert(magnitude(y) == b);
                assert(tdiv(x * SCALE, y) == if negative {
                    -(q as int)
                } else {
                    q as int
                });
            }
            signed(negative, q)
        }
    }
}

impl vstd::std_specs::ops::DivSpecImpl for Real {
    open spec fn obeys_div_spec() -> bool {
        true
    }

    open spec fn div_req(self, rhs: Real) -> bool {
        true
    }

    open spec fn div_spec(self, rhs: Real) -> Real {
        self.spec_div(rhs)
    }
}

} // verus!
