//! How far rounding moves a reflection and a hit from their exact places.
use crate::hitable::Sphere;
use crate::material::lemma_polished_metal_is_mirror;
use crate::material::Metal;
use crate::material::spec_reflect;
use crate::ray::Ray;
use crate::scalar::floor_sqrt;
use crate::scalar::lemma_cancel;
use crate::scalar::lemma_floor_sqrt_exists;
use crate::scalar::lemma_mul_bound;
use crate::scalar::lemma_rounding;
use crate::scalar::lemma_tdiv_of_multiple;
use crate::scalar::lemma_tdiv_remainder;
use crate::scalar::magnitude;
use crate::scalar::mul_raw;
use crate::scalar::tdiv;
use crate::scalar::Real;
use crate::scalar::SCALE;
use crate::vec3::exact_length_squared;
use crate::vec3::lemma_component_below_length;
use crate::vec3::lemma_quotient_square;
use crate::vec3::Vec3;
use vstd::prelude::*;

verus! {

/// One component of the reflection identity. With `rho`, `sigma` and `tau`
/// what rounding took from the products `d n`, `2 k n` and `(d - t) n`,
/// whose rounded quotients by `s` are `m`, `t` and `q`:
/// `s^2 (q + m) = 2 s^2 m + s rho - 2 k n^2 + sigma n - s tau`.
proof fn lemma_reflect_component(s: int, k: int, d: int, n: int, m: int, t: int, q: int)
    ensures
        s * s * q + s * s * m == 2 * (s * s * m) + s * (d * n - s * m) - 2 * (k * (n * n)) + (2
            * k * n - s * t) * n - s * ((d - t) * n - s * q),
{
    let p = d * n;
    let tn = t * n;
    let ssq = s * s * q;
    let ssm = s * s * m;
    let kn2 = k * (n * n);
    assert((2 * k * n - s * t) * n == 2 * kn2 - s * tn) by (nonlinear_arith)
        requires
            kn2 == k * (n * n),
            tn == t * n,
    ;
    assert((d - t) * n == p - tn) by (nonlinear_arith)
        requires
            p == d * n,
            tn == t * n,
    ;
    assert(s * (p - tn - s * q) == s * p - s * tn - ssq) by (nonlinear_arith)
        requires
            ssq == s * s * q,
    ;
    assert(s * (p - s * m) == s * p - ssm) by (nonlinear_arith)
        requires
            ssm == s * s * m,
    ;
}

/// The reflection identity on whole numbers: `m`, `t` and `q` are the
/// rounded products `d n / s`, `2 k n / s` and `(d - t) n / s` of each
/// component, with `k` the sum of the three `m`, which is at most `kb` in
/// size.
proof fn lemma_reflect_core(
    s: int,
    kb: int,
    d: (int, int, int),
    n: (int, int, int),
    m: (int, int, int),
    t: (int, int, int),
    q: (int, int, int),
)
    requires
        s >= 1000,
        -(s + 4) < n.0 < s + 4 && -(s + 4) < n.1 < s + 4 && -(s + 4) < n.2 < s + 4,
        -kb <= m.0 + m.1 + m.2 <= kb,
        -s < d.0 * n.0 - s * m.0 < s,
        -s < d.1 * n.1 - s * m.1 < s,
        -s < d.2 * n.2 - s * m.2 < s,
        -s < 2 * (m.0 + m.1 + m.2) * n.0 - s * t.0 < s,
        -s < 2 * (m.0 + m.1 + m.2) * n.1 - s * t.1 < s,
        -s < 2 * (m.0 + m.1 + m.2) * n.2 - s * t.2 < s,
        -s < (d.0 - t.0) * n.0 - s * q.0 < s,
        -s < (d.1 - t.1) * n.1 - s * q.1 < s,
        -s < (d.2 - t.2) * n.2 - s * q.2 < s,
        -8 * s <= n.0 * n.0 + n.1 * n.1 + n.2 * n.2 - s * s <= 8 * s,
    ensures
        -(9 * s + 16 * kb) < s * (q.0 + q.1 + q.2 + (m.0 + m.1 + m.2)) < 9 * s + 16 * kb,
{
    let k = m.0 + m.1 + m.2;
    let total = q.0 + q.1 + q.2 + k;
    let ss = s * s;
    let delta = n.0 * n.0 + n.1 * n.1 + n.2 * n.2 - ss;
    let rho = (d.0 * n.0 - s * m.0, d.1 * n.1 - s * m.1, d.2 * n.2 - s * m.2);
    let sigma = (2 * k * n.0 - s * t.0, 2 * k * n.1 - s * t.1, 2 * k * n.2 - s * t.2);
    let tau = (
        (d.0 - t.0) * n.0 - s * q.0,
        (d.1 - t.1) * n.1 - s * q.1,
        (d.2 - t.2) * n.2 - s * q.2,
    );
    lemma_reflect_component(s, k, d.0, n.0, m.0, t.0, q.0);
    lemma_reflect_component(s, k, d.1, n.1, m.1, t.1, q.1);
    lemma_reflect_component(s, k, d.2, n.2, m.2, t.2, q.2);
    assert(ss * total == ss * q.0 + ss * q.1 + ss * q.2 + ss * m.0 + ss * m.1 + ss * m.2)
        by (nonlinear_arith)
        requires
            total == q.0 + q.1 + q.2 + m.0 + m.1 + m.2,
    ;
    assert(k * (n.0 * n.0) + k * (n.1 * n.1) + k * (n.2 * n.2) == ss * m.0 + ss * m.1 + ss * m.2
        + k * delta) by (nonlinear_arith)
        requires
            k == m.0 + m.1 + m.2,
            delta == n.0 * n.0 + n.1 * n.1 + n.2 * n.2 - ss,
    ;
    assert(ss * total == s * rho.0 + s * rho.1 + s * rho.2 - 2 * (k * delta) + sigma.0 * n.0
        + sigma.1 * n.1 + sigma.2 * n.2 - s * tau.0 - s * tau.1 - s * tau.2);
    lemma_mul_bound(s, s, rho.0, s - 1);
    lemma_mul_bound(s, s, rho.1, s - 1);
    lemma_mul_bound(s, s, rho.2, s - 1);
    lemma_mul_bound(s, s, tau.0, s - 1);
    lemma_mul_bound(s, s, tau.1, s - 1);
    lemma_mul_bound(s, s, tau.2, s - 1);
    lemma_mul_bound(sigma.0, s - 1, n.0, s + 3);
    lemma_mul_bound(sigma.1, s - 1, n.1, s + 3);
    lemma_mul_bound(sigma.2, s - 1, n.2, s + 3);
    lemma_mul_bound(k, kb, delta, 8 * s);
    let whole = 9 * s + 16 * kb;
    assert(s * (s - 1) == ss - s && (s - 1) * (s + 3) == ss + 2 * s - 3 && 2 * (kb * (8 * s)) == s
        * (16 * kb) && s * whole == 9 * ss + s * (16 * kb) && ss * total == s * (s * total))
        by (nonlinear_arith)
        requires
            ss == s * s,
            whole == 9 * s + 16 * kb,
    ;
    assert(-whole < s * total < whole) by (nonlinear_arith)
        requires
            s > 0,
            -(s * whole) < s * (s * total) < s * whole,
    ;
}

/// A reflection flips the part along the normal and keeps its size, up to
/// rounding: for a direction `d` that is not longer than one and a normal
/// `n` of length one, both up to 2^-29 in the exact squared length,
/// `reflect(d, n) . n` and `-(d . n)` differ by at most 25 units of 2^-32.
pub proof fn lemma_reflect_flips_normal_part(d: Vec3, n: Vec3)
    requires
        exact_length_squared(d) <= SCALE * SCALE + 8 * SCALE,
        magnitude(exact_length_squared(n) - SCALE * SCALE) <= 8 * SCALE,
    ensures
        magnitude(spec_reflect(d, n).spec_dot(n)@ + d.spec_dot(n)@) <= 25,
        magnitude(spec_reflect(d, n).x@) <= 10 * SCALE,
        magnitude(spec_reflect(d, n).y@) <= 10 * SCALE,
        magnitude(spec_reflect(d, n).z@) <= 10 * SCALE,
{
    let s = SCALE as int;
    assert((s + 4) * (s + 4) == s * s + 8 * s + 16) by (nonlinear_arith);
    lemma_component_below_length(d.x@, d.y@, d.z@, s + 4);
    lemma_component_below_length(d.y@, d.z@, d.x@, s + 4);
    lemma_component_below_length(d.z@, d.x@, d.y@, s + 4);
    lemma_component_below_length(n.x@, n.y@, n.z@, s + 4);
    lemma_component_below_length(n.y@, n.z@, n.x@, s + 4);
    lemma_component_below_length(n.z@, n.x@, n.y@, s + 4);
    let m = (mul_raw(d.x@, n.x@), mul_raw(d.y@, n.y@), mul_raw(d.z@, n.z@));
    lemma_product_bound(d.x@, n.x@, 2, 2);
    lemma_product_bound(d.y@, n.y@, 2, 2);
    lemma_product_bound(d.z@, n.z@, 2, 2);
    let k = m.0 + m.1 + m.2;
    assert(d.spec_dot(n)@ == k);
    lemma_twice_product_below_squares(d.x@, n.x@);
    lemma_twice_product_below_squares(d.y@, n.y@);
    lemma_twice_product_below_squares(d.z@, n.z@);
    assert(-(s + 11) < k < s + 11) by (nonlinear_arith)
        requires
            s > 0,
            -(s * s + 11 * s) < s * k < s * s + 11 * s,
    ;
    let twice = Real::from_int(2).spec_mul(d.spec_dot(n));
    assert(twice@ == 2 * k) by {
        lemma_tdiv_of_multiple(2 * k, s);
        assert((2 * s) * k == s * (2 * k)) by (nonlinear_arith);
    }
    let t = (mul_raw(n.x@, 2 * k), mul_raw(n.y@, 2 * k), mul_raw(n.z@, 2 * k));
    lemma_product_bound(n.x@, 2 * k, 2, 4);
    lemma_product_bound(n.y@, 2 * k, 2, 4);
    lemma_product_bound(n.z@, 2 * k, 2, 4);
    let f = spec_reflect(d, n);
    assert(f.x@ == d.x@ - t.0 && f.y@ == d.y@ - t.1 && f.z@ == d.z@ - t.2);
    let q = (mul_raw(f.x@, n.x@), mul_raw(f.y@, n.y@), mul_raw(f.z@, n.z@));
    lemma_product_bound(f.x@, n.x@, 10, 2);
    lemma_product_bound(f.y@, n.y@, 10, 2);
    lemma_product_bound(f.z@, n.z@, 10, 2);
    assert(f.spec_dot(n)@ == q.0 + q.1 + q.2);
    assert(n.x@ * (2 * k) == 2 * k * n.x@ && n.y@ * (2 * k) == 2 * k * n.y@ && n.z@ * (2 * k) == 2
        * k * n.z@) by (nonlinear_arith);
    lemma_reflect_core(s, s + 10, d@, n@, m, t, q);
}

/// A reflection flips the part along the normal and keeps its size, up to
/// a rounding that grows with the vector: for `d` with components of at
/// most `bound` in size, where `bound` is between one and 2^24, and a normal
/// `n` of length one up to 2^-29 in the exact squared length,
/// `reflect(d, n) . n` and `-(d . n)` differ by at most `73 * 2^-32` times
/// `bound`. Beyond that size the products leave the range of the numbers.
pub proof fn lemma_reflect_flips_normal_part_of_any(d: Vec3, n: Vec3, bound: int)
    requires
        SCALE <= bound <= 0x100_0000_0000_0000,
        magnitude(d.x@) <= bound && magnitude(d.y@) <= bound && magnitude(d.z@) <= bound,
        magnitude(exact_length_squared(n) - SCALE * SCALE) <= 8 * SCALE,
    ensures
        SCALE * magnitude(spec_reflect(d, n).spec_dot(n)@ + d.spec_dot(n)@) <= 73 * bound,
{
    let s = SCALE as int;
    assert((s + 4) * (s + 4) == s * s + 8 * s + 16) by (nonlinear_arith);
    lemma_component_below_length(n.x@, n.y@, n.z@, s + 4);
    lemma_component_below_length(n.y@, n.z@, n.x@, s + 4);
    lemma_component_below_length(n.z@, n.x@, n.y@, s + 4);
    let m = (mul_raw(d.x@, n.x@), mul_raw(d.y@, n.y@), mul_raw(d.z@, n.z@));
    lemma_rounded_product(d.x@, bound, n.x@, s + 4);
    lemma_rounded_product(d.y@, bound, n.y@, s + 4);
    lemma_rounded_product(d.z@, bound, n.z@, s + 4);
    assert(bound * (s + 4) == 4294967300 * bound) by (nonlinear_arith)
        requires
            s == 0x1_0000_0000,
    ;
    let k = m.0 + m.1 + m.2;
    assert(d.spec_dot(n)@ == k);
    assert(-4 * bound <= k <= 4 * bound);
    let twice = Real::from_int(2).spec_mul(d.spec_dot(n));
    assert(twice@ == 2 * k) by {
        lemma_tdiv_of_multiple(2 * k, s);
        assert((2 * s) * k == s * (2 * k)) by (nonlinear_arith);
    }
    let t = (mul_raw(n.x@, 2 * k), mul_raw(n.y@, 2 * k), mul_raw(n.z@, 2 * k));
    lemma_rounded_product(n.x@, s + 4, 2 * k, 8 * bound);
    lemma_rounded_product(n.y@, s + 4, 2 * k, 8 * bound);
    lemma_rounded_product(n.z@, s + 4, 2 * k, 8 * bound);
    assert((s + 4) * (8 * bound) == 34359738400 * bound) by (nonlinear_arith)
        requires
            s == 0x1_0000_0000,
    ;
    let f = spec_reflect(d, n);
    assert(f.x@ == d.x@ - t.0 && f.y@ == d.y@ - t.1 && f.z@ == d.z@ - t.2);
    let q = (mul_raw(f.x@, n.x@), mul_raw(f.y@, n.y@), mul_raw(f.z@, n.z@));
    lemma_rounded_product(f.x@, 10 * bound, n.x@, s + 4);
    lemma_rounded_product(f.y@, 10 * bound, n.y@, s + 4);
    lemma_rounded_product(f.z@, 10 * bound, n.z@, s + 4);
    assert((10 * bound) * (s + 4) == 42949673000 * bound) by (nonlinear_arith)
        requires
            s == 0x1_0000_0000,
    ;
    assert(f.spec_dot(n)@ == q.0 + q.1 + q.2);
    assert(n.x@ * (2 * k) == 2 * k * n.x@ && n.y@ * (2 * k) == 2 * k * n.y@ && n.z@ * (2 * k) == 2
        * k * n.z@) by (nonlinear_arith);
    lemma_reflect_core(s, 4 * bound, d@, n@, m, t, q);
}

/// A vector with a component of at least 2^-16 in size has a length of at
/// least 2^-16; its length is at most `18` where its components are at most
/// `10`.
proof fn lemma_length_between(f: Vec3, i: int)
    requires
        magnitude(f.x@) <= 10 * SCALE && magnitude(f.y@) <= 10 * SCALE && magnitude(f.z@) <= 10
            * SCALE,
        0 <= i < 3,
        magnitude(if i == 0 {
            f.x@
        } else if i == 1 {
            f.y@
        } else {
            f.z@
        }) >= 0x1_0000,
    ensures
        0x1_0000 <= f.spec_length()@ <= 18 * SCALE,
{
    let s = SCALE as int;
    let (x, y, z) = f@;
    lemma_rounded_product(x, 10 * s, x, 10 * s);
    lemma_rounded_product(y, 10 * s, y, 10 * s);
    lemma_rounded_product(z, 10 * s, z, 10 * s);
    lemma_rounding(x, x);
    lemma_rounding(y, y);
    lemma_rounding(z, z);
    assert(x * x >= 0 && y * y >= 0 && z * z >= 0) by (nonlinear_arith);
    assert((10 * s) * (10 * s) == 100 * (s * s)) by (nonlinear_arith);
    let big = if i == 0 {
        x
    } else if i == 1 {
        y
    } else {
        z
    };
    assert(big * big >= s) by (nonlinear_arith)
        requires
            big >= 0x1_0000 || big <= -0x1_0000,
            s == 0x1_0000_0000,
    ;
    assert(mul_raw(big, big) >= 1) by {
        lemma_rounding(big, big);
    }
    let dot = mul_raw(x, x) + mul_raw(y, y) + mul_raw(z, z);
    assert(mul_raw(x, x) >= 0 && mul_raw(y, y) >= 0 && mul_raw(z, z) >= 0) by {
        lemma_tdiv_remainder(x * x, s);
        lemma_tdiv_remainder(y * y, s);
        lemma_tdiv_remainder(z * z, s);
    }
    assert(f.spec_dot(f)@ == dot);
    assert(1 <= dot && s * dot <= 300 * (s * s));
    lemma_floor_sqrt_exists((dot * s) as nat);
    let l = floor_sqrt(dot * s);
    assert(0x1_0000 <= l <= 18 * s) by (nonlinear_arith)
        requires
            0 <= l,
            l * l <= dot * s < (l + 1) * (l + 1),
            1 <= dot,
            s * dot <= 300 * (s * s),
            s == 0x1_0000_0000,
    ;
    assert(f.spec_length()@ == l);
}

/// One component of a quotient times a factor: with `r = f s - l u` what
/// rounding took from the quotient `u` of `f s` by `l`,
/// `l (u n) = s (f n) - r n`.
proof fn lemma_scaled_component(l: int, u: int, s: int, f: int, n: int)
    ensures
        l * (u * n) == s * (f * n) - (f * s - l * u) * n,
{
    let lu = l * u;
    let fs = f * s;
    assert(l * (u * n) == lu * n) by (nonlinear_arith)
        requires
            lu == l * u,
    ;
    assert(s * (f * n) == fs * n) by (nonlinear_arith)
        requires
            fs == f * s,
    ;
    assert((fs - lu) * n == fs * n - lu * n) by (nonlinear_arith);
}

/// A polished metal sends back every ray that does not graze it: where the
/// incoming unit direction `d` and the unit normal `n` have `d . n` of at
/// most `-2^-14`, the scattered ray leaves along the mirror image of `d`,
/// whatever point was drawn.
pub proof fn lemma_polished_metal_returns_the_ray(
    m: Metal,
    r_in: Ray,
    point: Vec3,
    normal: Vec3,
    sample: Vec3,
)
    requires
        m.fuzz@ == 0,
        exact_length_squared(r_in.d.spec_unit_vec()) <= SCALE * SCALE + 8 * SCALE,
        magnitude(exact_length_squared(normal) - SCALE * SCALE) <= 8 * SCALE,
        r_in.d.spec_unit_vec().spec_dot(normal)@ <= -0x4_0000,
    ensures
        m.spec_scatter_with(r_in, point, normal, sample) == Some(
            (m.albedo, Ray::new(point, spec_reflect(r_in.d.spec_unit_vec(), normal))),
        ),
{
    let s = SCALE as int;
    let d = r_in.d.spec_unit_vec();
    let n = normal@;
    let f = spec_reflect(d, normal);
    lemma_polished_metal_is_mirror(m, r_in, point, normal, sample);
    lemma_reflect_flips_normal_part(d, normal);
    assert((s + 4) * (s + 4) == s * s + 8 * s + 16) by (nonlinear_arith);
    lemma_component_below_length(n.0, n.1, n.2, s + 4);
    lemma_component_below_length(n.1, n.2, n.0, s + 4);
    lemma_component_below_length(n.2, n.0, n.1, s + 4);
    let q = (mul_raw(f.x@, n.0), mul_raw(f.y@, n.1), mul_raw(f.z@, n.2));
    lemma_rounded_product(f.x@, 10 * s, n.0, s + 4);
    lemma_rounded_product(f.y@, 10 * s, n.1, s + 4);
    lemma_rounded_product(f.z@, 10 * s, n.2, s + 4);
    assert((10 * s) * (s + 4) == 10 * (s * s) + 40 * s) by (nonlinear_arith);
    let fn_part = q.0 + q.1 + q.2;
    assert(f.spec_dot(normal)@ == fn_part);
    assert(fn_part >= 0x4_0000 - 25);
    // Some component of the mirror image is not tiny.
    let i: int = if q.0 >= 0x1_5000 {
        0
    } else if q.1 >= 0x1_5000 {
        1
    } else {
        2
    };
    let fi = if i == 0 {
        f.x@
    } else if i == 1 {
        f.y@
    } else {
        f.z@
    };
    let qi = if i == 0 {
        q.0
    } else if i == 1 {
        q.1
    } else {
        q.2
    };
    let ni = if i == 0 {
        n.0
    } else if i == 1 {
        n.1
    } else {
        n.2
    };
    assert(qi >= 0x1_5000);
    assert(magnitude(fi) >= 0x1_0000) by {
        if magnitude(fi) < 0x1_0000 {
            lemma_rounded_product(fi, 0x1_0000, ni, s + 4);
            assert(0x1_0000 * (s + 4) == 0x1_0000 * s + 0x4_0000) by (nonlinear_arith);
        }
    }
    lemma_length_between(f, i);
    let l = f.spec_length()@;
    // The unit vector along the mirror image.
    let u = (tdiv(f.x@ * s, l), tdiv(f.y@ * s, l), tdiv(f.z@ * s, l));
    lemma_tdiv_remainder(f.x@ * s, l);
    lemma_tdiv_remainder(f.y@ * s, l);
    lemma_tdiv_remainder(f.z@ * s, l);
    let ub = 0xa_0000_0000_0000;
    assert(magnitude(u.0) <= ub && magnitude(u.1) <= ub && magnitude(u.2) <= ub)
        by (nonlinear_arith)
        requires
            l >= 0x1_0000,
            l * magnitude(u.0) <= magnitude(f.x@ * s),
            l * magnitude(u.1) <= magnitude(f.y@ * s),
            l * magnitude(u.2) <= magnitude(f.z@ * s),
            magnitude(f.x@) <= 10 * s && magnitude(f.y@) <= 10 * s && magnitude(f.z@) <= 10 * s,
            s == 0x1_0000_0000,
            ub == 0xa_0000_0000_0000,
    ;
    let unit = f.spec_unit_vec();
    assert(unit@ == u);
    let back = (mul_raw(u.0, n.0), mul_raw(u.1, n.1), mul_raw(u.2, n.2));
    lemma_rounded_product(u.0, ub, n.0, s + 4);
    lemma_rounded_product(u.1, ub, n.1, s + 4);
    lemma_rounded_product(u.2, ub, n.2, s + 4);
    assert(ub * (s + 4) <= 0xb_0000_0000_0000 * s) by (nonlinear_arith)
        requires
            ub == 0xa_0000_0000_0000,
            s == 0x1_0000_0000,
    ;
    assert(unit.spec_dot(normal)@ == back.0 + back.1 + back.2);
    // l (u . n) = s (f . n) - (what rounding took) . n
    let r = (f.x@ * s - l * u.0, f.y@ * s - l * u.1, f.z@ * s - l * u.2);
    let un = u.0 * n.0 + u.1 * n.1 + u.2 * n.2;
    let fne = f.x@ * n.0 + f.y@ * n.1 + f.z@ * n.2;
    let rn = r.0 * n.0 + r.1 * n.1 + r.2 * n.2;
    lemma_scaled_component(l, u.0, s, f.x@, n.0);
    lemma_scaled_component(l, u.1, s, f.y@, n.1);
    lemma_scaled_component(l, u.2, s, f.z@, n.2);
    assert(l * un == l * (u.0 * n.0) + l * (u.1 * n.1) + l * (u.2 * n.2)) by (nonlinear_arith)
        requires
            un == u.0 * n.0 + u.1 * n.1 + u.2 * n.2,
    ;
    assert(s * fne == s * (f.x@ * n.0) + s * (f.y@ * n.1) + s * (f.z@ * n.2)) by (nonlinear_arith)
        requires
            fne == f.x@ * n.0 + f.y@ * n.1 + f.z@ * n.2,
    ;
    assert(l * un == s * fne - rn);
    lemma_mul_bound(r.0, l, n.0, s + 4);
    lemma_mul_bound(r.1, l, n.1, s + 4);
    lemma_mul_bound(r.2, l, n.2, s + 4);
    assert(s * fne >= s * (s * (fn_part - 3))) by (nonlinear_arith)
        requires
            fne > s * fn_part - 3 * s,
            s > 0,
    ;
    assert(un >= 4 * s) by (nonlinear_arith)
        requires
            l * un >= s * (s * (fn_part - 3)) - 3 * (l * (s + 4)),
            0x1_0000 <= l <= 18 * s,
            fn_part >= 0x4_0000 - 25,
            s == 0x1_0000_0000,
    ;
    assert(back.0 + back.1 + back.2 > 0);
}

/// The rounded product of two numbers of at most `xb` and `yb` in size
/// differs from the exact product by less than one unit, and its
/// [`SCALE`]-fold is at most `xb * yb` in size.
proof fn lemma_rounded_product(x: int, xb: int, y: int, yb: int)
    requires
        -xb <= x <= xb,
        -yb <= y <= yb,
    ensures
        -SCALE < x * y - SCALE * mul_raw(x, y) < SCALE,
        SCALE * magnitude(mul_raw(x, y)) <= xb * yb,
{
    lemma_rounding(x, y);
    lemma_mul_bound(x, xb, y, yb);
}

/// Twice a product is at most the sum of the two squares in size.
proof fn lemma_twice_product_below_squares(a: int, b: int)
    ensures
        -(a * a + b * b) <= 2 * (a * b) <= a * a + b * b,
{
    assert(-(a * a + b * b) <= 2 * (a * b) <= a * a + b * b) by (nonlinear_arith);
}

/// The rounded product of two numbers of at most `a` and `b` in size is at
/// most `a * b` in size, and differs from the exact product by less than one
/// unit.
proof fn lemma_product_bound(x: int, y: int, a: int, b: int)
    requires
        0 <= a,
        0 <= b,
        -a * SCALE <= x <= a * SCALE,
        -b * SCALE <= y <= b * SCALE,
    ensures
        -(a * b) * SCALE <= mul_raw(x, y) <= (a * b) * SCALE,
        -SCALE < x * y - SCALE * mul_raw(x, y) < SCALE,
{
    let s = SCALE as int;
    lemma_tdiv_remainder(x * y, s);
    assert(magnitude(x * y) <= (a * b) * (s * s)) by (nonlinear_arith)
        requires
            0 <= a,
            0 <= b,
            s > 0,
            -a * s <= x <= a * s,
            -b * s <= y <= b * s,
    ;
    assert(magnitude(mul_raw(x, y)) <= (a * b) * s) by (nonlinear_arith)
        requires
            s > 0,
            s * magnitude(mul_raw(x, y)) <= (a * b) * (s * s),
    ;
}

/// One component of a point on a ray, measured from the centre of a sphere
/// and squared: with `e = oc + w` and `rho = d t - s w` what rounding took
/// from the product `d t`,
/// `s^2 e^2 = s^2 oc^2 + 2 s t (oc d) + t^2 d^2 - 2 s (oc rho) - 2 t (d rho) + rho^2`.
proof fn lemma_offset_component(s: int, t: int, oc: int, d: int, w: int)
    ensures
        ({
            let rho = d * t - s * w;
            s * s * ((oc + w) * (oc + w)) == s * s * (oc * oc) + 2 * (s * (t * (oc * d))) + t * t
                * (d * d) - 2 * (s * (oc * rho)) - 2 * (t * (d * rho)) + rho * rho
        }),
{
    let rho = d * t - s * w;
    let u = s * oc;
    let v = d * t;
    let sw = s * w;
    assert(sw == v - rho);
    assert(s * s * ((oc + w) * (oc + w)) == (u + sw) * (u + sw)) by (nonlinear_arith)
        requires
            u == s * oc,
            sw == s * w,
    ;
    assert((u + sw) * (u + sw) == u * u + 2 * (u * sw) + sw * sw) by (nonlinear_arith);
    assert(u * u == s * s * (oc * oc)) by (nonlinear_arith)
        requires
            u == s * oc,
    ;
    assert(u * sw == u * v - u * rho) by (nonlinear_arith)
        requires
            sw == v - rho,
    ;
    assert(u * v == s * (t * (oc * d))) by (nonlinear_arith)
        requires
            u == s * oc,
            v == d * t,
    ;
    assert(u * rho == s * (oc * rho)) by (nonlinear_arith)
        requires
            u == s * oc,
    ;
    assert(sw * sw == v * v - 2 * (v * rho) + rho * rho) by (nonlinear_arith)
        requires
            sw == v - rho,
    ;
    assert(v * v == t * t * (d * d)) by (nonlinear_arith)
        requires
            v == d * t,
    ;
    assert(v * rho == t * (d * rho)) by (nonlinear_arith)
        requires
            v == d * t,
    ;
}

/// The quadratic that a hit distance solves, with what rounding took from
/// each step: for the rounded coefficients `a`, `b`, `cc`, the products
/// `s bb = b^2 - rho_bb` and `s ac = a cc - rho_ac`, the root `g` (signed)
/// with `g^2 = s (bb - ac) - lambda`, and the distance `t` with
/// `a t = s (-b - g) - rho_t`:
/// `a (s^2 cc + 2 s t b + t^2 a) = s^2 (rho_ac - rho_bb - lambda) + 2 s rho_t g + rho_t^2`.
proof fn lemma_quadratic_residue(
    s: int,
    a: int,
    b: int,
    cc: int,
    bb: int,
    ac: int,
    g: int,
    t: int,
)
    ensures
        ({
            let rho_bb = b * b - s * bb;
            let rho_ac = a * cc - s * ac;
            let lambda = s * (bb - ac) - g * g;
            let rho_t = s * (-b - g) - a * t;
            a * (s * s * cc) + a * (2 * (s * (t * b))) + a * (t * t * a) == s * s * (rho_ac
                - rho_bb - lambda) + 2 * (s * (rho_t * g)) + rho_t * rho_t
        }),
{
    let rho_bb = b * b - s * bb;
    let rho_ac = a * cc - s * ac;
    let lambda = s * (bb - ac) - g * g;
    let num = -b - g;
    let rho_t = s * num - a * t;
    let at = a * t;
    let acx = a * cc;
    assert(at == s * num - rho_t);
    assert(a * (s * s * cc) == s * s * acx) by (nonlinear_arith)
        requires
            acx == a * cc,
    ;
    assert(a * (2 * (s * (t * b))) == 2 * (s * (b * at))) by (nonlinear_arith)
        requires
            at == a * t,
    ;
    assert(a * (t * t * a) == at * at) by (nonlinear_arith)
        requires
            at == a * t,
    ;
    let bn = b * num;
    let nr = num * rho_t;
    let br = b * rho_t;
    let gr = rho_t * g;
    assert(b * at == s * bn - br) by (nonlinear_arith)
        requires
            at == s * num - rho_t,
            bn == b * num,
            br == b * rho_t,
    ;
    assert(at * at == s * s * (num * num) - 2 * (s * nr) + rho_t * rho_t) by (nonlinear_arith)
        requires
            at == s * num - rho_t,
            nr == num * rho_t,
    ;
    assert(br + nr == -gr) by (nonlinear_arith)
        requires
            br == b * rho_t,
            nr == num * rho_t,
            gr == rho_t * g,
            num == -b - g,
    ;
    assert(2 * bn + num * num == g * g - b * b) by (nonlinear_arith)
        requires
            bn == b * num,
            num == -b - g,
    ;
    assert(s * s * acx + 2 * (s * (s * bn)) + s * s * (num * num) == s * s * (acx + 2 * bn + num
        * num)) by (nonlinear_arith);
    assert(s * (s * bn - br) == s * (s * bn) - s * br) by (nonlinear_arith);
    assert(s * br + s * nr == -(s * gr)) by (nonlinear_arith)
        requires
            br + nr == -gr,
    ;
    assert(s * (bb - ac) == s * bb - s * ac) by (nonlinear_arith);
    assert(acx + 2 * bn + num * num == rho_ac - rho_bb - lambda);
}

/// The squared distance of a hit from the centre, against the squared
/// radius, on whole numbers. `oc` is the ray's origin seen from the centre,
/// `d` its direction, `w` the rounded products `d t / s`, and `a`, `b`,
/// `cc`, `bb`, `ac`, `g`, `t` are as in [`lemma_quadratic_residue`]; `m`
/// bounds the scene. Then `e = oc + w` has
/// `s |e . e - r^2| <= 600 m^2`.
proof fn lemma_hit_residue(
    s: int,
    m: int,
    r: int,
    oc: (int, int, int),
    d: (int, int, int),
    w: (int, int, int),
    a: int,
    b: int,
    cc: int,
    bb: int,
    ac: int,
    g: int,
    t: int,
)
    requires
        s >= 4096,
        m >= s,
        -m <= oc.0 <= m && -m <= oc.1 <= m && -m <= oc.2 <= m,
        -(s + 4) < d.0 < s + 4 && -(s + 4) < d.1 < s + 4 && -(s + 4) < d.2 < s + 4,
        s - 11 < a <= s + 8,
        0 <= d.0 * d.0 + d.1 * d.1 + d.2 * d.2 - s * a < 3 * s,
        -3 * s < oc.0 * d.0 + oc.1 * d.1 + oc.2 * d.2 - s * b < 3 * s,
        -s < oc.0 * oc.0 + oc.1 * oc.1 + oc.2 * oc.2 - r * r - s * cc < 3 * s,
        0 <= b * b - s * bb < s,
        -s < a * cc - s * ac < s,
        -5 * m <= g <= 5 * m,
        0 <= s * (bb - ac) - g * g <= 10 * m,
        -a < s * (-b - g) - a * t < a,
        -10 * m <= t <= 10 * m,
        -s < d.0 * t - s * w.0 < s,
        -s < d.1 * t - s * w.1 < s,
        -s < d.2 * t - s * w.2 < s,
    ensures
        ({
            let e = (oc.0 + w.0, oc.1 + w.1, oc.2 + w.2);
            -(600 * (m * m)) <= s * (e.0 * e.0 + e.1 * e.1 + e.2 * e.2 - r * r) <= 600 * (m * m)
        }),
{
    let e = (oc.0 + w.0, oc.1 + w.1, oc.2 + w.2);
    let ee = e.0 * e.0 + e.1 * e.1 + e.2 * e.2;
    let oo = oc.0 * oc.0 + oc.1 * oc.1 + oc.2 * oc.2;
    let od = oc.0 * d.0 + oc.1 * d.1 + oc.2 * d.2;
    let dd = d.0 * d.0 + d.1 * d.1 + d.2 * d.2;
    let rho = (d.0 * t - s * w.0, d.1 * t - s * w.1, d.2 * t - s * w.2);
    let x = oc.0 * rho.0 + oc.1 * rho.1 + oc.2 * rho.2;
    let y = d.0 * rho.0 + d.1 * rho.1 + d.2 * rho.2;
    let z = rho.0 * rho.0 + rho.1 * rho.1 + rho.2 * rho.2;
    let rho_a = dd - s * a;
    let rho_b = od - s * b;
    let q = oo - r * r - s * cc;
    let rho_bb = b * b - s * bb;
    let rho_ac = a * cc - s * ac;
    let lambda = s * (bb - ac) - g * g;
    let rho_t = s * (-b - g) - a * t;
    let ss = s * s;
    let mm = m * m;
    let tt = t * t;
    // The position: s^2 e.e in exact terms.
    lemma_offset_component(s, t, oc.0, d.0, w.0);
    lemma_offset_component(s, t, oc.1, d.1, w.1);
    lemma_offset_component(s, t, oc.2, d.2, w.2);
    assert(ss * ee == ss * (e.0 * e.0) + ss * (e.1 * e.1) + ss * (e.2 * e.2)) by (nonlinear_arith)
        requires
            ee == e.0 * e.0 + e.1 * e.1 + e.2 * e.2,
    ;
    assert(ss * oo == ss * (oc.0 * oc.0) + ss * (oc.1 * oc.1) + ss * (oc.2 * oc.2))
        by (nonlinear_arith)
        requires
            oo == oc.0 * oc.0 + oc.1 * oc.1 + oc.2 * oc.2,
    ;
    assert(s * (t * od) == s * (t * (oc.0 * d.0)) + s * (t * (oc.1 * d.1)) + s * (t * (oc.2
        * d.2))) by (nonlinear_arith)
        requires
            od == oc.0 * d.0 + oc.1 * d.1 + oc.2 * d.2,
    ;
    assert(tt * dd == tt * (d.0 * d.0) + tt * (d.1 * d.1) + tt * (d.2 * d.2)) by (nonlinear_arith)
        requires
            dd == d.0 * d.0 + d.1 * d.1 + d.2 * d.2,
    ;
    assert(s * x == s * (oc.0 * rho.0) + s * (oc.1 * rho.1) + s * (oc.2 * rho.2))
        by (nonlinear_arith)
        requires
            x == oc.0 * rho.0 + oc.1 * rho.1 + oc.2 * rho.2,
    ;
    assert(t * y == t * (d.0 * rho.0) + t * (d.1 * rho.1) + t * (d.2 * rho.2)) by (nonlinear_arith)
        requires
            y == d.0 * rho.0 + d.1 * rho.1 + d.2 * rho.2,
    ;
    assert(ss * ee == ss * oo + 2 * (s * (t * od)) + tt * dd - 2 * (s * x) - 2 * (t * y) + z);
    // The coefficients in place of the exact terms.
    let tb = t * b;
    assert(ss * oo == s * (ss * cc) + ss * (r * r) + ss * q) by (nonlinear_arith)
        requires
            oo == s * cc + r * r + q,
            ss == s * s,
    ;
    assert(s * (t * od) == s * (s * tb) + s * (t * rho_b)) by (nonlinear_arith)
        requires
            od == s * b + rho_b,
            tb == t * b,
    ;
    assert(tt * dd == s * (tt * a) + tt * rho_a) by (nonlinear_arith)
        requires
            dd == s * a + rho_a,
    ;
    let rest = ss * q + 2 * (s * (t * rho_b)) + tt * rho_a - 2 * (s * x) - 2 * (t * y) + z;
    let main = ss * cc + 2 * (s * tb) + tt * a;
    assert(s * main == s * (ss * cc) + 2 * (s * (s * tb)) + s * (tt * a)) by (nonlinear_arith)
        requires
            main == ss * cc + 2 * (s * tb) + tt * a,
    ;
    let residue = ee - r * r;
    assert(ss * residue == ss * ee - ss * (r * r)) by (nonlinear_arith)
        requires
            residue == ee - r * r,
    ;
    assert(ss * residue == s * main + rest);
    // The quadratic that t solves.
    lemma_quadratic_residue(s, a, b, cc, bb, ac, g, t);
    let quad = ss * (rho_ac - rho_bb - lambda) + 2 * (s * (rho_t * g)) + rho_t * rho_t;
    assert(a * main == quad) by {
        assert(a * main == a * (ss * cc) + a * (2 * (s * tb)) + a * (tt * a)) by (nonlinear_arith)
            requires
                main == ss * cc + 2 * (s * tb) + tt * a,
        ;
    }
    let whole = a * (ss * residue);
    assert(whole == s * quad + a * rest) by (nonlinear_arith)
        requires
            whole == a * (ss * residue),
            ss * residue == s * main + rest,
            a * main == quad,
    ;
    // Bounds.
    assert(s * m <= mm && ss <= mm && 8 <= s) by (nonlinear_arith)
        requires
            m >= s,
            s >= 4096,
            mm == m * m,
            ss == s * s,
    ;
    lemma_mul_bound(ss, ss, rho_ac - rho_bb - lambda, 12 * m);
    lemma_mul_bound(rho_t, a, g, 5 * m);
    lemma_mul_bound(s, s, rho_t * g, a * (5 * m));
    lemma_mul_bound(rho_t, a, rho_t, a);
    assert(ss * (12 * m) <= 24 * (a * mm) && s * (a * (5 * m)) <= 5 * (a * mm) && a * a <= 2 * (a
        * mm)) by (nonlinear_arith)
        requires
            s - 11 < a <= s + 8,
            s >= 4096,
            m >= s,
            mm == m * m,
            ss == s * s,
    ;
    assert(-(36 * (a * mm)) <= quad <= 36 * (a * mm));
    lemma_mul_bound(s, s, quad, 36 * (a * mm));
    lemma_mul_bound(ss, ss, q, 3 * s);
    lemma_mul_bound(t, 10 * m, rho_b, 3 * s);
    lemma_mul_bound(s, s, t * rho_b, (10 * m) * (3 * s));
    lemma_mul_bound(t, 10 * m, t, 10 * m);
    lemma_mul_bound(tt, (10 * m) * (10 * m), rho_a, 3 * s);
    lemma_mul_bound(oc.0, m, rho.0, s);
    lemma_mul_bound(oc.1, m, rho.1, s);
    lemma_mul_bound(oc.2, m, rho.2, s);
    lemma_mul_bound(s, s, x, 3 * (m * s));
    lemma_mul_bound(d.0, s + 4, rho.0, s);
    lemma_mul_bound(d.1, s + 4, rho.1, s);
    lemma_mul_bound(d.2, s + 4, rho.2, s);
    lemma_mul_bound(t, 10 * m, y, 3 * ((s + 4) * s));
    lemma_mul_bound(rho.0, s, rho.0, s);
    lemma_mul_bound(rho.1, s, rho.1, s);
    lemma_mul_bound(rho.2, s, rho.2, s);
    assert(ss * (3 * s) <= 3 * (s * mm) && s * ((10 * m) * (3 * s)) <= 30 * (s * mm) && ((10 * m)
        * (10 * m)) * (3 * s) == 300 * (s * mm) && s * (3 * (m * s)) <= 3 * (s * mm) && (10 * m)
        * (3 * ((s + 4) * s)) <= 60 * (s * mm) && 3 * ss <= 3 * (s * mm)) by (nonlinear_arith)
        requires
            s >= 4096,
            m >= s,
            mm == m * m,
            ss == s * s,
    ;
    assert(-(492 * (s * mm)) <= rest <= 492 * (s * mm));
    lemma_mul_bound(a, a, rest, 492 * (s * mm));
    let asmm = a * (s * mm);
    assert(s * (36 * (a * mm)) == 36 * asmm && a * (492 * (s * mm)) == 492 * asmm)
        by (nonlinear_arith)
        requires
            asmm == a * (s * mm),
    ;
    assert(-(528 * asmm) <= whole <= 528 * asmm);
    assert(whole == (a * s) * (s * residue) && asmm == (a * s) * mm) by (nonlinear_arith)
        requires
            whole == a * (ss * residue),
            ss == s * s,
            asmm == a * (s * mm),
    ;
    assert((a * s) * (528 * mm) == 528 * asmm) by (nonlinear_arith)
        requires
            asmm == (a * s) * mm,
    ;
    assert(a * s > 0) by (nonlinear_arith)
        requires
            a > 0,
            s > 0,
    ;
    lemma_cancel(a * s, s * residue, 528 * mm);
}

/// The sizes of the coefficients in a scene within `m`: with the relations
/// of [`lemma_hit_residue`], `b` is at most `4 m` in size, and `s cc`,
/// `s bb` and `s ac` are at most `4 m^2`, `16 m^2` and `6 m^2`.
proof fn lemma_coefficient_bounds(
    s: int,
    m: int,
    r: int,
    oc: (int, int, int),
    d: (int, int, int),
    a: int,
    b: int,
    cc: int,
    bb: int,
    ac: int,
)
    requires
        s >= 4096,
        m >= s,
        -m <= oc.0 <= m && -m <= oc.1 <= m && -m <= oc.2 <= m,
        -m <= r <= m,
        -(s + 4) < d.0 < s + 4 && -(s + 4) < d.1 < s + 4 && -(s + 4) < d.2 < s + 4,
        s - 11 < a <= s + 8,
        -3 * s < oc.0 * d.0 + oc.1 * d.1 + oc.2 * d.2 - s * b < 3 * s,
        -s < oc.0 * oc.0 + oc.1 * oc.1 + oc.2 * oc.2 - r * r - s * cc < 3 * s,
        0 <= b * b - s * bb < s,
        -s < a * cc - s * ac < s,
    ensures
        -4 * m <= b <= 4 * m,
        -(4 * (m * m)) <= s * cc <= 4 * (m * m),
        -(5 * (m * m)) <= a * cc <= 5 * (m * m),
        -s <= s * bb <= 16 * (m * m),
        -(6 * (m * m)) <= s * ac <= 6 * (m * m),
        s * (bb - ac) <= 22 * (m * m),
{
    let mm = m * m;
    lemma_mul_bound(oc.0, m, d.0, s + 4);
    lemma_mul_bound(oc.1, m, d.1, s + 4);
    lemma_mul_bound(oc.2, m, d.2, s + 4);
    assert(3 * (m * (s + 4)) + 3 * s <= s * (4 * m)) by (nonlinear_arith)
        requires
            m >= s,
            s >= 4096,
    ;
    lemma_cancel(s, b, 4 * m);
    lemma_mul_bound(oc.0, m, oc.0, m);
    lemma_mul_bound(oc.1, m, oc.1, m);
    lemma_mul_bound(oc.2, m, oc.2, m);
    lemma_mul_bound(r, m, r, m);
    assert(0 <= r * r && 0 <= oc.0 * oc.0 && 0 <= oc.1 * oc.1 && 0 <= oc.2 * oc.2)
        by (nonlinear_arith);
    assert(3 * s <= mm && s * (5 * mm) >= (s + 8) * (4 * mm) && s <= mm) by (nonlinear_arith)
        requires
            m >= s,
            s >= 4096,
            mm == m * m,
    ;
    assert(-(4 * mm) <= s * cc <= 4 * mm);
    lemma_mul_bound(a, s + 8, s * cc, 4 * mm);
    assert(a * (s * cc) == s * (a * cc)) by (nonlinear_arith);
    lemma_cancel(s, a * cc, 5 * mm);
    lemma_mul_bound(b, 4 * m, b, 4 * m);
    assert((4 * m) * (4 * m) == 16 * mm && 0 <= b * b) by (nonlinear_arith)
        requires
            mm == m * m,
    ;
    assert(s * (bb - ac) == s * bb - s * ac) by (nonlinear_arith);
}

/// What the coefficients of the quadratic allow of its root and of the
/// distance: with the relations of [`lemma_hit_residue`], the root `g` is at
/// most `5 m` in size and the distance `t` at most `10 m`.
proof fn lemma_root_bounds(s: int, m: int, a: int, b: int, bb: int, ac: int, g: int, t: int)
    requires
        s >= 4096,
        m >= s,
        s - 11 < a <= s + 8,
        -4 * m <= b <= 4 * m,
        s * (bb - ac) <= 22 * (m * m),
        0 <= s * (bb - ac) - g * g,
        -a < s * (-b - g) - a * t < a,
    ensures
        -5 * m <= g <= 5 * m,
        -10 * m <= t <= 10 * m,
{
    let mm = m * m;
    assert(-5 * m <= g <= 5 * m) by (nonlinear_arith)
        requires
            g * g <= 22 * mm,
            mm == m * m,
            m > 0,
    ;
    lemma_mul_bound(s, s, -b - g, 9 * m);
    assert(s * (9 * m) + a <= a * (10 * m)) by (nonlinear_arith)
        requires
            m >= s,
            s >= 4096,
            s - 11 < a <= s + 8,
    ;
    lemma_cancel(a, t, 10 * m);
}

/// The ray's origin as seen from the centre of the sphere.
pub open spec fn spec_offset(s: Sphere, r: Ray) -> Vec3 {
    r.o.spec_sub(s.center)
}

/// The rounded coefficient `a = d . d`.
pub open spec fn spec_coefficient_a(r: Ray) -> Real {
    r.d.spec_dot(r.d)
}

/// The rounded coefficient `b = (o - c) . d`.
pub open spec fn spec_coefficient_b(s: Sphere, r: Ray) -> Real {
    spec_offset(s, r).spec_dot(r.d)
}

/// The rounded coefficient `c = (o - c) . (o - c) - r^2`.
pub open spec fn spec_coefficient_c(s: Sphere, r: Ray) -> Real {
    spec_offset(s, r).spec_dot(spec_offset(s, r)).spec_sub(s.radius.spec_mul(s.radius))
}

/// The rounded discriminant `b^2 - a c`.
pub open spec fn spec_discriminant(s: Sphere, r: Ray) -> Real {
    spec_coefficient_b(s, r).spec_mul(spec_coefficient_b(s, r)).spec_sub(
        spec_coefficient_a(r).spec_mul(spec_coefficient_c(s, r)),
    )
}

/// The largest offset and radius for which the squares of the computation
/// fit the numbers: 8192.
pub open spec fn spec_reach() -> int {
    0x2000_0000_0000
}

/// The ray starts within `bound` of the centre along every axis, the
/// radius is at most `bound`, and `bound` is at most [`spec_reach`]; the
/// ray's origin lies where a point within that reach of it is not clamped,
/// and the ray's direction has the length one.
pub open spec fn moderate(s: Sphere, r: Ray, bound: int) -> bool {
    &&& SCALE <= bound <= spec_reach()
    &&& magnitude(r.o.x@) <= 0x4000_0000_0000_0000
    &&& magnitude(r.o.y@) <= 0x4000_0000_0000_0000
    &&& magnitude(r.o.z@) <= 0x4000_0000_0000_0000
    &&& magnitude(r.o.x@ - s.center.x@) <= bound
    &&& magnitude(r.o.y@ - s.center.y@) <= bound
    &&& magnitude(r.o.z@ - s.center.z@) <= bound
    &&& 0 <= s.radius@ <= bound
    &&& r.spec_unit_direction()
}

/// The coefficients differ from their exact values by what rounding took.
proof fn lemma_coefficients(s: Sphere, r: Ray, bound: int)
    requires
        moderate(s, r, bound),
    ensures
        ({
            let oc = spec_offset(s, r)@;
            let d = r.d@;
            let a = spec_coefficient_a(r)@;
            let b = spec_coefficient_b(s, r)@;
            let cc = spec_coefficient_c(s, r)@;
            let rad = s.radius@;
            &&& oc == (r.o.x@ - s.center.x@, r.o.y@ - s.center.y@, r.o.z@ - s.center.z@)
            &&& -(SCALE + 4) < d.0 < SCALE + 4 && -(SCALE + 4) < d.1 < SCALE + 4 && -(SCALE + 4)
                < d.2 < SCALE + 4
            &&& SCALE - 11 < a <= SCALE + 8
            &&& 0 <= d.0 * d.0 + d.1 * d.1 + d.2 * d.2 - SCALE * a < 3 * SCALE
            &&& -3 * SCALE < oc.0 * d.0 + oc.1 * d.1 + oc.2 * d.2 - SCALE * b < 3 * SCALE
            &&& -SCALE < oc.0 * oc.0 + oc.1 * oc.1 + oc.2 * oc.2 - rad * rad - SCALE * cc < 3
                * SCALE
        }),
{
    let sc = SCALE as int;
    let m = bound;
    let oc = spec_offset(s, r)@;
    let d = r.d@;
    let rad = s.radius@;
    assert((sc + 4) * (sc + 4) == sc * sc + 8 * sc + 16) by (nonlinear_arith);
    lemma_component_below_length(d.0, d.1, d.2, sc + 4);
    lemma_component_below_length(d.1, d.2, d.0, sc + 4);
    lemma_component_below_length(d.2, d.0, d.1, sc + 4);
    lemma_rounding(d.0, d.0);
    lemma_rounding(d.1, d.1);
    lemma_rounding(d.2, d.2);
    lemma_mul_bound(d.0, sc + 4, d.0, sc + 4);
    lemma_mul_bound(d.1, sc + 4, d.1, sc + 4);
    lemma_mul_bound(d.2, sc + 4, d.2, sc + 4);
    assert(d.0 * d.0 >= 0 && d.1 * d.1 >= 0 && d.2 * d.2 >= 0) by (nonlinear_arith);
    lemma_rounding(oc.0, d.0);
    lemma_rounding(oc.1, d.1);
    lemma_rounding(oc.2, d.2);
    lemma_mul_bound(oc.0, m, d.0, sc + 4);
    lemma_mul_bound(oc.1, m, d.1, sc + 4);
    lemma_mul_bound(oc.2, m, d.2, sc + 4);
    lemma_rounding(oc.0, oc.0);
    lemma_rounding(oc.1, oc.1);
    lemma_rounding(oc.2, oc.2);
    lemma_rounding(rad, rad);
    lemma_mul_bound(oc.0, m, oc.0, m);
    lemma_mul_bound(oc.1, m, oc.1, m);
    lemma_mul_bound(oc.2, m, oc.2, m);
    lemma_mul_bound(rad, m, rad, m);
    lemma_mul_bound(m, 0x2000_0000_0000, m, 0x2000_0000_0000);
    assert(oc.0 * oc.0 >= 0 && oc.1 * oc.1 >= 0 && oc.2 * oc.2 >= 0 && rad * rad >= 0)
        by (nonlinear_arith);
    let a = spec_coefficient_a(r)@;
    let b = spec_coefficient_b(s, r)@;
    let cc = spec_coefficient_c(s, r)@;
    assert(m * (sc + 4) <= 0x4000_0000_0000_0000_0000 && m * m <= 0x400_0000_0000_0000_0000_0000)
        by (nonlinear_arith)
        requires
            0 <= m <= 0x2000_0000_0000,
            sc == 0x1_0000_0000,
    ;
    assert(oc == (r.o.x@ - s.center.x@, r.o.y@ - s.center.y@, r.o.z@ - s.center.z@));
    assert(a == mul_raw(d.0, d.0) + mul_raw(d.1, d.1) + mul_raw(d.2, d.2));
    assert(sc - 11 < a <= sc + 8);
    assert(b == mul_raw(oc.0, d.0) + mul_raw(oc.1, d.1) + mul_raw(oc.2, d.2));
    assert(cc == mul_raw(oc.0, oc.0) + mul_raw(oc.1, oc.1) + mul_raw(oc.2, oc.2) - mul_raw(
        rad,
        rad,
    ));
}

/// The hit at one of the two roots lies on the sphere up to rounding; see
/// [`lemma_hit_lies_on_sphere`].
proof fn lemma_root_lies_on_sphere(s: Sphere, r: Ray, bound: int, far: bool)
    requires
        moderate(s, r, bound),
        spec_discriminant(s, r)@ > 0,
    ensures
        ({
            let root = spec_discriminant(s, r).spec_sqrt();
            let b = spec_coefficient_b(s, r);
            let num = if far {
                b.spec_neg().spec_add(root)
            } else {
                b.spec_neg().spec_sub(root)
            };
            let rec = s.spec_record(r, num.spec_div(spec_coefficient_a(r)));
            let e = rec.p.spec_sub(s.center);
            &&& SCALE * magnitude(exact_length_squared(e) - s.radius@ * s.radius@) <= 600 * (
            bound * bound)
            &&& -12 * bound <= e.x@ <= 12 * bound
            &&& -12 * bound <= e.y@ <= 12 * bound
            &&& -12 * bound <= e.z@ <= 12 * bound
        }),
{
    let sc = SCALE as int;
    let m = bound;
    let oc = spec_offset(s, r)@;
    let d = r.d@;
    let rad = s.radius@;
    let a = spec_coefficient_a(r)@;
    let b = spec_coefficient_b(s, r)@;
    let cc = spec_coefficient_c(s, r)@;
    lemma_coefficients(s, r, bound);
    let bb = mul_raw(b, b);
    let ac = mul_raw(a, cc);
    lemma_rounding(b, b);
    lemma_rounding(a, cc);
    assert(b * b >= 0) by (nonlinear_arith);
    lemma_coefficient_bounds(sc, m, rad, oc, d, a, b, cc, bb, ac);
    lemma_mul_bound(m, 0x2000_0000_0000, m, 0x2000_0000_0000);
    let disc = bb - ac;
    assert(spec_discriminant(s, r)@ == disc);
    assert(disc * sc == sc * (bb - ac)) by (nonlinear_arith)
        requires
            disc == bb - ac,
    ;
    lemma_floor_sqrt_exists((disc * sc) as nat);
    let root = floor_sqrt(disc * sc);
    assert((root + 1) * (root + 1) == root * root + 2 * root + 1) by (nonlinear_arith);
    let g = if far {
        -root
    } else {
        root
    };
    assert(g * g == root * root) by (nonlinear_arith)
        requires
            g == root || g == -root,
    ;
    let num = -b - g;
    let t = tdiv(num * sc, a);
    lemma_tdiv_remainder(num * sc, a);
    assert(num * sc == sc * (-b - g)) by (nonlinear_arith)
        requires
            num == -b - g,
    ;
    lemma_root_bounds(sc, m, a, b, bb, ac, g, t);
    assert(spec_discriminant(s, r).spec_sqrt()@ == root);
    let num_real = if far {
        spec_coefficient_b(s, r).spec_neg().spec_add(spec_discriminant(s, r).spec_sqrt())
    } else {
        spec_coefficient_b(s, r).spec_neg().spec_sub(spec_discriminant(s, r).spec_sqrt())
    };
    assert(num_real@ == num);
    let t_real = num_real.spec_div(spec_coefficient_a(r));
    assert(t_real@ == t);
    let w = (mul_raw(d.0, t), mul_raw(d.1, t), mul_raw(d.2, t));
    lemma_rounding(d.0, t);
    lemma_rounding(d.1, t);
    lemma_rounding(d.2, t);
    lemma_mul_bound(d.0, sc + 4, t, 10 * m);
    lemma_mul_bound(d.1, sc + 4, t, 10 * m);
    lemma_mul_bound(d.2, sc + 4, t, 10 * m);
    assert((sc + 4) * (10 * m) == 42949672960 * m + 40 * m) by (nonlinear_arith)
        requires
            sc == 0x1_0000_0000,
    ;
    let rec = s.spec_record(r, t_real);
    let e = rec.p.spec_sub(s.center);
    assert(e@ == (oc.0 + w.0, oc.1 + w.1, oc.2 + w.2));
    lemma_hit_residue(sc, m, rad, oc, d, w, a, b, cc, bb, ac, g, t);
}

/// A component whose square, with two more squares, is at most 2^60 times
/// the square of `l` is at most `2^30 l` in size, so that its 2^32-fold is
/// at most `2^62 l`.
proof fn lemma_component_within(a: int, b: int, c: int, l: int)
    requires
        l > 0,
        a * a + b * b + c * c <= 0x1000_0000_0000_0000 * (l * l),
    ensures
        magnitude(a * SCALE) <= 0x4000_0000_0000_0000 * l,
{
    assert(-(0x4000_0000 * l) <= a <= 0x4000_0000 * l) by (nonlinear_arith)
        requires
            l > 0,
            a * a + b * b + c * c <= 0x1000_0000_0000_0000 * (l * l),
    ;
}

/// The normal at one of the two roots has the length one up to rounding;
/// see [`lemma_normal_has_unit_length`].
proof fn lemma_root_normal(s: Sphere, r: Ray, bound: int, far: bool)
    requires
        moderate(s, r, bound),
        bound <= 0x200_0000_0000 * s.radius@,
        spec_discriminant(s, r)@ > 0,
    ensures
        ({
            let root = spec_discriminant(s, r).spec_sqrt();
            let b = spec_coefficient_b(s, r);
            let num = if far {
                b.spec_neg().spec_add(root)
            } else {
                b.spec_neg().spec_sub(root)
            };
            let rec = s.spec_record(r, num.spec_div(spec_coefficient_a(r)));
            s.radius@ * s.radius@ * magnitude(exact_length_squared(rec.normal) - SCALE * SCALE)
                <= 700 * (SCALE * (bound * bound))
        }),
{
    lemma_root_lies_on_sphere(s, r, bound, far);
    let sc = SCALE as int;
    let root = spec_discriminant(s, r).spec_sqrt();
    let b = spec_coefficient_b(s, r);
    let num = if far {
        b.spec_neg().spec_add(root)
    } else {
        b.spec_neg().spec_sub(root)
    };
    let rec = s.spec_record(r, num.spec_div(spec_coefficient_a(r)));
    let e = rec.p.spec_sub(s.center)@;
    let l = s.radius@;
    let k = 12 * bound;
    let ee = e.0 * e.0 + e.1 * e.1 + e.2 * e.2;
    let ll = l * l;
    let bq = bound * bound;
    assert(l > 0);
    lemma_mul_bound(bound, 0x200_0000_0000 * l, bound, 0x200_0000_0000 * l);
    assert((0x200_0000_0000 * l) * (0x200_0000_0000 * l) == 0x4_0000_0000_0000_0000_0000 * ll)
        by (nonlinear_arith)
        requires
            ll == l * l,
    ;
    assert(ee <= 0x1000_0000_0000_0000 * ll);
    lemma_component_within(e.0, e.1, e.2, l);
    lemma_component_within(e.1, e.2, e.0, l);
    lemma_component_within(e.2, e.0, e.1, l);
    let n = (tdiv(e.0 * sc, l), tdiv(e.1 * sc, l), tdiv(e.2 * sc, l));
    lemma_tdiv_remainder(e.0 * sc, l);
    lemma_tdiv_remainder(e.1 * sc, l);
    lemma_tdiv_remainder(e.2 * sc, l);
    assert(magnitude(n.0) <= 0x4000_0000_0000_0000 && magnitude(n.1) <= 0x4000_0000_0000_0000
        && magnitude(n.2) <= 0x4000_0000_0000_0000) by (nonlinear_arith)
        requires
            l > 0,
            l * magnitude(n.0) <= 0x4000_0000_0000_0000 * l,
            l * magnitude(n.1) <= 0x4000_0000_0000_0000 * l,
            l * magnitude(n.2) <= 0x4000_0000_0000_0000 * l,
    ;
    assert(rec.normal@ == n);
    lemma_quotient_square(sc, l, k, e.0, n.0);
    lemma_quotient_square(sc, l, k, e.1, n.1);
    lemma_quotient_square(sc, l, k, e.2, n.2);
    let nn = exact_length_squared(rec.normal);
    assert(ll * nn == ll * (n.0 * n.0) + ll * (n.1 * n.1) + ll * (n.2 * n.2)) by (nonlinear_arith)
        requires
            nn == n.0 * n.0 + n.1 * n.1 + n.2 * n.2,
    ;
    assert(sc * sc * ee == sc * sc * (e.0 * e.0) + sc * sc * (e.1 * e.1) + sc * sc * (e.2 * e.2))
        by (nonlinear_arith)
        requires
            ee == e.0 * e.0 + e.1 * e.1 + e.2 * e.2,
    ;
    assert(sc * sc * ee - ll * (sc * sc) == sc * (sc * (ee - ll))) by (nonlinear_arith);
    lemma_mul_bound(sc, sc, sc * (ee - ll), 600 * bq);
    assert(ll * (nn - sc * sc) == ll * nn - ll * (sc * sc)) by (nonlinear_arith);
    assert(sc * (k * l) <= 12 * (sc * bq) && ll <= sc * bq) by (nonlinear_arith)
        requires
            k == 12 * bound,
            0 <= l <= bound,
            bq == bound * bound,
            sc > 0,
            ll == l * l,
    ;
    assert(sc * (600 * bq) == 600 * (sc * bq)) by (nonlinear_arith);
    assert(ll * magnitude(nn - sc * sc) == magnitude(ll * (nn - sc * sc))) by (nonlinear_arith)
        requires
            ll >= 0,
    ;
}

/// The normal of a hit has the length one up to rounding: for a ray of
/// unit direction that starts within `bound` of the centre, and a sphere
/// whose radius `r` is at most `bound` and at least `bound / 2^41`, the
/// exact square of the normal's length differs from one by at most
/// `700 * 2^-32` times the square of `bound / r`. Below that radius the
/// normal may leave the range of the numbers.
pub proof fn lemma_normal_has_unit_length(
    s: Sphere,
    r: Ray,
    t_min: Real,
    t_max: Real,
    bound: int,
)
    requires
        moderate(s, r, bound),
        bound <= 0x200_0000_0000 * s.radius@,
    ensures
        s.spec_hit(r, t_min, t_max) matches Some(rec) ==> s.radius@ * s.radius@ * magnitude(
            exact_length_squared(rec.normal) - SCALE * SCALE,
        ) <= 700 * (SCALE * (bound * bound)),
{
    reveal(Sphere::spec_roots);
    if spec_discriminant(s, r)@ > 0 {
        lemma_root_normal(s, r, bound, false);
        lemma_root_normal(s, r, bound, true);
    }
}

/// A hit lies on the sphere up to rounding: for a ray of unit direction
/// that starts within `bound` of the centre and a radius of at most `bound`,
/// the exact square of the distance of the hit from the centre differs from
/// the square of the radius by at most `600 * 2^-32` times the square of
/// `bound`. The bound may be as large as [`spec_reach`]; not far beyond it
/// the squares of the offset leave the range of the numbers and are
/// clamped.
pub proof fn lemma_hit_lies_on_sphere(s: Sphere, r: Ray, t_min: Real, t_max: Real, bound: int)
    requires
        moderate(s, r, bound),
    ensures
        s.spec_hit(r, t_min, t_max) matches Some(rec) ==> SCALE * magnitude(
            exact_length_squared(rec.p.spec_sub(s.center)) - s.radius@ * s.radius@,
        ) <= 600 * (bound * bound),
{
    reveal(Sphere::spec_roots);
    if spec_discriminant(s, r)@ > 0 {
        lemma_root_lies_on_sphere(s, r, bound, false);
        lemma_root_lies_on_sphere(s, r, bound, true);
    }
}

} // verus!
