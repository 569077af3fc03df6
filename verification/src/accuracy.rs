//! Bounds on the rounding error of the vector operations.
//!
//! Three laws of geometric optics hold of the rounded operations to within
//! a stated tolerance: normalising gives a unit vector
//! (`lemma_unit_vector_is_unit`), reflecting twice about a unit normal
//! gives the vector back wherever the arithmetic stays in range
//! (`lemma_reflect_twice_in_range`), and refracting with an index ratio of
//! one leaves a direction as it is (`lemma_refract_straight`).
use crate::fixed::descale;
use crate::fixed::isqrt;
use crate::fixed::lemma_descale;
use crate::fixed::lemma_descale_lipschitz;
use crate::fixed::lemma_exact_quotient;
use crate::fixed::lemma_isqrt;
use crate::fixed::lemma_magnitude_below_root;
use crate::fixed::lemma_product_bound;
use crate::fixed::lemma_square_monotone;
use crate::fixed::lemma_tdiv_error;
use crate::fixed::magnitude;
use crate::fixed::sat;
use crate::fixed::tdiv;
use crate::fixed::Fixed;
use crate::fixed::ONE_RAW;
use crate::vec3::Vec3;
use vstd::prelude::*;

verus! {

/// `v` is a unit vector as far as the rounding allows: its squared length
/// is one to within eight units of the last binary place, that is to
/// within `2^-29`, and no component exceeds one.
pub open spec fn is_unit(v: Vec3) -> bool {
    &&& ONE_RAW * ONE_RAW - 8 * ONE_RAW <= v.dot_raw(v) <= ONE_RAW * ONE_RAW + 8 * ONE_RAW
    &&& -ONE_RAW <= v.0.raw <= ONE_RAW
    &&& -ONE_RAW <= v.1.raw <= ONE_RAW
    &&& -ONE_RAW <= v.2.raw <= ONE_RAW
}

/// One component of a normalised vector: the quotient of `x * 2^32` by the
/// length `len`, where `x` is at most `len` in magnitude.  The lemma
/// returns the magnitude `a` of the quotient, which brackets the exact
/// ratio.
proof fn lemma_unit_component(x: int, len: int) -> (a: int)
    requires
        0 < len,
        -len <= x <= len,
    ensures
        a == magnitude(tdiv(x * ONE_RAW, len)),
        0 <= a <= ONE_RAW,
        a * len <= magnitude(x) * ONE_RAW < (a + 1) * len,
        tdiv(x * ONE_RAW, len) * tdiv(x * ONE_RAW, len) == a * a,
        sat(tdiv(x * ONE_RAW, len)) == tdiv(x * ONE_RAW, len),
{
    let m = magnitude(x) * ONE_RAW;
    let a = m / len;
    assert(magnitude(x * ONE_RAW) == m) by (nonlinear_arith)
        requires
            m == magnitude(x) * ONE_RAW,
    ;
    assert(x * ONE_RAW >= 0 <==> x >= 0) by (nonlinear_arith);
    assert(magnitude(tdiv(x * ONE_RAW, len)) == a) by {
        vstd::arithmetic::div_mod::lemma_div_pos_is_pos(m, len);
    }
    vstd::arithmetic::div_mod::lemma_fundamental_div_mod(m, len);
    vstd::arithmetic::div_mod::lemma_mod_bound(m, len);
    assert(a * len <= m < (a + 1) * len) by (nonlinear_arith)
        requires
            m == len * a + m % len,
            0 <= m % len < len,
    ;
    assert(a <= ONE_RAW) by {
        if a > ONE_RAW {
            assert(a * len >= (ONE_RAW + 1) * len) by (nonlinear_arith)
                requires
                    a >= ONE_RAW + 1,
                    len > 0,
            ;
            assert(magnitude(x) * ONE_RAW <= len * ONE_RAW) by (nonlinear_arith)
                requires
                    magnitude(x) <= len,
            ;
            assert((ONE_RAW + 1) * len == len * ONE_RAW + len) by (nonlinear_arith);
        }
    }
    assert(0 <= a) by {
        vstd::arithmetic::div_mod::lemma_div_pos_is_pos(m, len);
    }
    let q = tdiv(x * ONE_RAW, len);
    assert(q * q == a * a) by (nonlinear_arith)
        requires
            q == a || q == -a,
    ;
    a
}

/// The square of a magnitude scaled by `2^32` is the square scaled by
/// `2^64`.
proof fn lemma_scaled_square(x: int, m: int)
    requires
        m == magnitude(x) * ONE_RAW,
    ensures
        m * m == (ONE_RAW * ONE_RAW) * (x * x),
{
    let k = magnitude(x);
    assert(k * k == x * x) by (nonlinear_arith)
        requires
            k == x || k == -x,
    ;
    assert((k * ONE_RAW) * (k * ONE_RAW) == (ONE_RAW * ONE_RAW) * (k * k)) by (nonlinear_arith);
}

/// No component of a normalised vector exceeds one, however long or
/// short the vector.
pub proof fn lemma_unit_vector_bounded(v: Vec3)
    requires
        v.spec_length().raw > 0,
    ensures
        -ONE_RAW <= v.spec_unit_vector().0.raw <= ONE_RAW,
        -ONE_RAW <= v.spec_unit_vector().1.raw <= ONE_RAW,
        -ONE_RAW <= v.spec_unit_vector().2.raw <= ONE_RAW,
{
    let s = v.dot_raw(v);
    let (x, y, z) = (v.0.raw as int, v.1.raw as int, v.2.raw as int);
    assert(x * x >= 0 && y * y >= 0 && z * z >= 0) by (nonlinear_arith);
    lemma_isqrt(s);
    let len = v.spec_length().raw as int;
    if isqrt(s) <= i64::MAX {
        lemma_magnitude_below_root(x, len);
        lemma_magnitude_below_root(y, len);
        lemma_magnitude_below_root(z, len);
    }
    lemma_quotient_at_most_one(x, len);
    lemma_quotient_at_most_one(y, len);
    lemma_quotient_at_most_one(z, len);
}

/// A number that exceeds the divisor by at most one, and by nothing where
/// the divisor is below `2^32`, gives a quotient of at most one.
proof fn lemma_quotient_at_most_one(x: int, len: int)
    requires
        0 < len,
        -len - 1 <= x <= len + 1,
        len <= ONE_RAW ==> -len <= x <= len,
    ensures
        -ONE_RAW <= tdiv(x * ONE_RAW, len) <= ONE_RAW,
{
    let one = ONE_RAW as int;
    let m = magnitude(x) * one;
    assert(magnitude(x * one) == m && (x * one >= 0 <==> x >= 0)) by (nonlinear_arith)
        requires
            m == magnitude(x) * one,
            one > 0,
    ;
    assert(m < (one + 1) * len) by (nonlinear_arith)
        requires
            m == magnitude(x) * one,
            magnitude(x) <= len + 1,
            len <= one ==> magnitude(x) <= len,
            0 < len,
            one > 0,
    ;
    vstd::arithmetic::div_mod::lemma_div_pos_is_pos(m, len);
    vstd::arithmetic::div_mod::lemma_fundamental_div_mod(m, len);
    vstd::arithmetic::div_mod::lemma_mod_bound(m, len);
    let q = m / len;
    assert(q <= one) by (nonlinear_arith)
        requires
            m == len * q + m % len,
            0 <= m % len,
            m < (one + 1) * len,
            len > 0,
    ;
}

/// The quotient of a number by a length that is less than twice the
/// number is at least one half.
proof fn lemma_quotient_at_least_half(x: int, len: int)
    requires
        0 < len < 2 * magnitude(x),
    ensures
        magnitude(sat(tdiv(x * ONE_RAW, len))) >= ONE_RAW / 2,
{
    let one = ONE_RAW as int;
    let half = one / 2;
    let m = magnitude(x) * one;
    assert(magnitude(x * one) == m && (x * one >= 0 <==> x >= 0)) by (nonlinear_arith)
        requires
            m == magnitude(x) * one,
            one > 0,
    ;
    assert(m >= len * half) by (nonlinear_arith)
        requires
            m == magnitude(x) * one,
            2 * magnitude(x) >= len + 1,
            one == 2 * half,
            half > 0,
            len > 0,
    ;
    assert(len * half >= 0) by (nonlinear_arith)
        requires
            len > 0,
            half > 0,
    ;
    vstd::arithmetic::div_mod::lemma_div_is_ordered(len * half, m, len);
    assert(len * half == half * len) by (nonlinear_arith);
    vstd::arithmetic::div_mod::lemma_div_by_multiple(half, len);
}

/// A normalised vector is not small: one of its components is at least
/// one half in magnitude, so the vector is neither zero nor near zero.
pub proof fn lemma_unit_vector_not_small(v: Vec3)
    requires
        v.spec_length().raw > 0,
    ensures
        !v.spec_unit_vector().spec_near_zero(),
        !v.spec_unit_vector().spec_is_zero(),
        v.spec_unit_vector().spec_length().raw > 0,
{
    let s = v.dot_raw(v);
    let (x, y, z) = (v.0.raw as int, v.1.raw as int, v.2.raw as int);
    let (mx, my, mz) = (magnitude(x), magnitude(y), magnitude(z));
    assert(x * x == mx * mx && y * y == my * my && z * z == mz * mz) by (nonlinear_arith)
        requires
            mx == x || mx == -x,
            my == y || my == -y,
            mz == z || mz == -z,
    ;
    assert(mx * mx >= 0 && my * my >= 0 && mz * mz >= 0) by (nonlinear_arith);
    lemma_isqrt(s);
    let root = isqrt(s);
    let len = v.spec_length().raw as int;
    assert(len <= root);
    let m = if mx >= my && mx >= mz {
        mx
    } else if my >= mz {
        my
    } else {
        mz
    };
    lemma_square_monotone(mx, m);
    lemma_square_monotone(my, m);
    lemma_square_monotone(mz, m);
    assert((2 * m) * (2 * m) == 4 * (m * m)) by (nonlinear_arith);
    assert(m > 0) by {
        if m == 0 {
            assert(s == 0) by (nonlinear_arith)
                requires
                    s == mx * mx + my * my + mz * mz,
                    mx == 0,
                    my == 0,
                    mz == 0,
            ;
            crate::fixed::lemma_isqrt_is(0, 0);
        }
    }
    assert(m * m > 0) by (nonlinear_arith)
        requires
            m > 0,
    ;
    if root >= 2 * m {
        lemma_square_monotone(2 * m, root);
    }
    assert(len < 2 * m);
    if mx == m {
        lemma_quotient_at_least_half(x, len);
    } else if my == m {
        lemma_quotient_at_least_half(y, len);
    } else {
        lemma_quotient_at_least_half(z, len);
    }
    v.spec_unit_vector().lemma_length_positive();
}

/// Three squares whose roots are bracketed by multiples of `len` bracket
/// the sum of the squared multiples.
proof fn lemma_bracket_squares(a: int, m: int, len: int)
    requires
        0 <= a,
        0 < len,
        a * len <= m < (a + 1) * len,
    ensures
        a * a * (len * len) <= m * m,
        m * m < (a * a + 2 * a + 1) * (len * len),
{
    lemma_square_monotone(a * len, m);
    lemma_square_monotone(m, (a + 1) * len);
    assert((a * len) * (a * len) == a * a * (len * len)) by (nonlinear_arith);
    assert(((a + 1) * len) * ((a + 1) * len) == (a * a + 2 * a + 1) * (len * len))
        by (nonlinear_arith);
}

/// The arithmetic at the heart of `lemma_unit_vector_is_unit`: if the sum
/// `big` of the squared components times `2^64` lies between the squares
/// of `len` and `len + 1` times `2^64`, and the squared quotients sum to
/// `sum`, then `sum` is `2^64` to within `2^35`.
proof fn lemma_unit_sum(sum: int, spread: int, big: int, len: int)
    requires
        ONE_RAW / 2 <= len,
        0 <= spread <= 3 * ONE_RAW,
        sum * (len * len) <= big,
        big < (sum + 2 * spread + 3) * (len * len),
        ONE_RAW * ONE_RAW * (len * len) <= big,
        big < ONE_RAW * ONE_RAW * ((len + 1) * (len + 1)),
    ensures
        ONE_RAW * ONE_RAW - 8 * ONE_RAW <= sum <= ONE_RAW * ONE_RAW + 8 * ONE_RAW,
{
    let one = ONE_RAW as int;
    let sq = len * len;
    assert(sq > 0) by (nonlinear_arith)
        requires
            sq == len * len,
            len > 0,
    ;
    // Below: one^2 * sq <= big < (sum + 6 one + 3) * sq.
    assert(sum + 2 * spread + 3 > one * one) by (nonlinear_arith)
        requires
            one * one * sq < (sum + 2 * spread + 3) * sq,
            sq > 0,
    ;
    // Above: sum * sq <= big < one^2 * (sq + 2 len + 1) <= (one^2 + 8 one) * sq.
    assert(one * one * ((len + 1) * (len + 1)) == one * one * sq + one * one * (2 * len + 1))
        by (nonlinear_arith)
        requires
            sq == len * len,
    ;
    assert(one * (2 * len + 1) <= 8 * sq) by (nonlinear_arith)
        requires
            sq == len * len,
            2 * len >= one,
            one >= 2,
    ;
    assert(one * one * (2 * len + 1) <= 8 * one * sq) by (nonlinear_arith)
        requires
            one * (2 * len + 1) <= 8 * sq,
            one > 0,
    ;
    assert(sum < one * one + 8 * one) by (nonlinear_arith)
        requires
            sum * sq < one * one * sq + 8 * one * sq,
            sq > 0,
    ;
}

/// Normalising gives a unit vector: where a vector is at least half as
/// long as a unit vector, and its length is representable, the squared
/// length of `unit_vector` is one to within `2^-29`.
pub proof fn lemma_unit_vector_is_unit(v: Vec3)
    requires
        ONE_RAW / 2 <= v.spec_length().raw < i64::MAX,
    ensures
        is_unit(v.spec_unit_vector()),
{
    let one = ONE_RAW as int;
    let s = v.dot_raw(v);
    let (x, y, z) = (v.0.raw as int, v.1.raw as int, v.2.raw as int);
    assert(x * x >= 0 && y * y >= 0 && z * z >= 0) by (nonlinear_arith);
    lemma_isqrt(s);
    let len = isqrt(s);
    assert(v.spec_length().raw == len);
    lemma_magnitude_below_root(x, len);
    lemma_magnitude_below_root(y, len);
    lemma_magnitude_below_root(z, len);
    let a = lemma_unit_component(x, len);
    let b = lemma_unit_component(y, len);
    let c = lemma_unit_component(z, len);
    let u = v.spec_unit_vector();
    assert(u.0.raw == tdiv(x * one, len));
    assert(u.1.raw == tdiv(y * one, len));
    assert(u.2.raw == tdiv(z * one, len));
    let sum = u.dot_raw(u);
    assert(sum == a * a + b * b + c * c);
    let (mx, my, mz) = (magnitude(x) * one, magnitude(y) * one, magnitude(z) * one);
    lemma_bracket_squares(a, mx, len);
    lemma_bracket_squares(b, my, len);
    lemma_bracket_squares(c, mz, len);
    let big = mx * mx + my * my + mz * mz;
    let w = one * one;
    lemma_scaled_square(x, mx);
    lemma_scaled_square(y, my);
    lemma_scaled_square(z, mz);
    assert(big == w * s) by (nonlinear_arith)
        requires
            big == w * (x * x) + w * (y * y) + w * (z * z),
            s == x * x + y * y + z * z,
    ;
    let sq = len * len;
    assert(sum * sq <= big) by (nonlinear_arith)
        requires
            sum == a * a + b * b + c * c,
            a * a * sq <= mx * mx,
            b * b * sq <= my * my,
            c * c * sq <= mz * mz,
            big == mx * mx + my * my + mz * mz,
    ;
    let spread = a + b + c;
    assert(big < (sum + 2 * spread + 3) * sq) by (nonlinear_arith)
        requires
            sum == a * a + b * b + c * c,
            spread == a + b + c,
            mx * mx < (a * a + 2 * a + 1) * sq,
            my * my < (b * b + 2 * b + 1) * sq,
            mz * mz < (c * c + 2 * c + 1) * sq,
            big == mx * mx + my * my + mz * mz,
    ;
    assert(w * sq <= big && big < w * ((len + 1) * (len + 1))) by (nonlinear_arith)
        requires
            big == w * s,
            w > 0,
            sq <= s < (len + 1) * (len + 1),
    ;
    lemma_unit_sum(sum, spread, big, len);
}

/// Normalising a unit vector gives a unit vector.
pub proof fn lemma_unit_vector_of_unit(v: Vec3)
    requires
        is_unit(v),
    ensures
        v.spec_length().raw > 0,
        is_unit(v.spec_unit_vector()),
{
    let one = ONE_RAW as int;
    let s = v.dot_raw(v);
    lemma_isqrt(s);
    let len = isqrt(s);
    if len < one - 8 {
        lemma_square_monotone(len + 1, one - 8);
        assert((one - 8) * (one - 8) == one * one - 16 * one + 64) by (nonlinear_arith);
    }
    if len > one + 8 {
        lemma_square_monotone(one + 8, len);
        assert((one + 8) * (one + 8) == one * one + 16 * one + 64) by (nonlinear_arith);
    }
    lemma_unit_vector_is_unit(v);
}

/// The reflection of `v` about `n` stays in range: twice the dot product
/// of the two, and every component of the mirror image, is representable,
/// so that nothing saturates on the way.
pub open spec fn reflects_in_range(v: Vec3, n: Vec3) -> bool {
    let d = v.spec_dot(&n).raw as int;
    let push = n.scale(Fixed::from_int(2i32).spec_mul(v.spec_dot(&n)));
    &&& -i64::MAX <= 2 * d <= i64::MAX
    &&& i64::MIN <= v.0.raw - push.0.raw <= i64::MAX
    &&& i64::MIN <= v.1.raw - push.1.raw <= i64::MAX
    &&& i64::MIN <= v.2.raw - push.2.raw <= i64::MAX
}

/// How far, in raw units, a component may move when a vector whose raw dot
/// product with the normal is `d` is reflected twice about that normal.
pub open spec fn reflect_slack(d: int) -> int {
    11 + (32 * magnitude(d)) / (ONE_RAW as int)
}

/// What one reflection computes, component by component.  For a normal
/// with components in `[-1, 1]` and a reflection that stays in range, the
/// lemma returns the raw dot product `d` and the rounding errors `e` of
/// the three components of `2 d n`, and states the reflected vector over
/// them.
proof fn lemma_reflect_parts(v: Vec3, n: Vec3) -> (parts: (int, int, int, int))
    requires
        -ONE_RAW <= n.0.raw <= ONE_RAW,
        -ONE_RAW <= n.1.raw <= ONE_RAW,
        -ONE_RAW <= n.2.raw <= ONE_RAW,
        reflects_in_range(v, n),
    ensures
        ({
            let (d, e0, e1, e2) = parts;
            let r = Vec3::spec_reflect(&v, &n);
            &&& d == v.spec_dot(&n).raw
            &&& -ONE_RAW < v.dot_raw(n) - d * ONE_RAW < ONE_RAW
            &&& -ONE_RAW < e0 < ONE_RAW
            &&& -ONE_RAW < e1 < ONE_RAW
            &&& -ONE_RAW < e2 < ONE_RAW
            &&& (v.0.raw - r.0.raw) * ONE_RAW == 2 * d * n.0.raw + e0
            &&& (v.1.raw - r.1.raw) * ONE_RAW == 2 * d * n.1.raw + e1
            &&& (v.2.raw - r.2.raw) * ONE_RAW == 2 * d * n.2.raw + e2
        }),
{
    let one = ONE_RAW as int;
    let big = v.dot_raw(n);
    lemma_tdiv_error(big);
    let d = v.spec_dot(&n).raw as int;
    assert(d == tdiv(big, one));
    let two = Fixed::from_int(2i32);
    assert(two.raw == 2 * one);
    let dif = two.spec_mul(v.spec_dot(&n)).raw as int;
    assert(dif == 2 * d) by {
        assert((2 * one) * d == (2 * d) * one) by (nonlinear_arith);
        lemma_exact_quotient(2 * d, one);
        assert(tdiv((2 * d) * one, one) == 2 * d);
    }
    let ghost g0 = lemma_scaled_component(n.0.raw as int, dif, i64::MAX as int);
    let ghost g1 = lemma_scaled_component(n.1.raw as int, dif, i64::MAX as int);
    let ghost g2 = lemma_scaled_component(n.2.raw as int, dif, i64::MAX as int);
    let r = Vec3::spec_reflect(&v, &n);
    assert(r.0.raw == v.0.raw - g0);
    assert(r.1.raw == v.1.raw - g1);
    assert(r.2.raw == v.2.raw - g2);
    let e0 = g0 * one - n.0.raw * dif;
    let e1 = g1 * one - n.1.raw * dif;
    let e2 = g2 * one - n.2.raw * dif;
    assert(n.0.raw * dif == 2 * d * n.0.raw) by (nonlinear_arith)
        requires
            dif == 2 * d,
    ;
    assert(n.1.raw * dif == 2 * d * n.1.raw) by (nonlinear_arith)
        requires
            dif == 2 * d,
    ;
    assert(n.2.raw * dif == 2 * d * n.2.raw) by (nonlinear_arith)
        requires
            dif == 2 * d,
    ;
    assert((v.0.raw - r.0.raw) * one == g0 * one) by (nonlinear_arith)
        requires
            v.0.raw - r.0.raw == g0,
    ;
    assert((v.1.raw - r.1.raw) * one == g1 * one) by (nonlinear_arith)
        requires
            v.1.raw - r.1.raw == g1,
    ;
    assert((v.2.raw - r.2.raw) * one == g2 * one) by (nonlinear_arith)
        requires
            v.2.raw - r.2.raw == g2,
    ;
    (d, e0, e1, e2)
}

/// A reflection of a vector with components within `bound`, about a
/// normal with components in `[-1, 1]`, stays in range: the dot product
/// is within three times the bound and the mirror image within seven
/// times.
pub proof fn lemma_reflect_bounded(v: Vec3, n: Vec3, bound: int)
    requires
        0 <= bound <= 0x1000_0000_0000_0000,
        -ONE_RAW <= n.0.raw <= ONE_RAW,
        -ONE_RAW <= n.1.raw <= ONE_RAW,
        -ONE_RAW <= n.2.raw <= ONE_RAW,
        -bound <= v.0.raw <= bound,
        -bound <= v.1.raw <= bound,
        -bound <= v.2.raw <= bound,
    ensures
        reflects_in_range(v, n),
        -3 * bound <= v.spec_dot(&n).raw <= 3 * bound,
        -7 * bound <= Vec3::spec_reflect(&v, &n).0.raw <= 7 * bound,
        -7 * bound <= Vec3::spec_reflect(&v, &n).1.raw <= 7 * bound,
        -7 * bound <= Vec3::spec_reflect(&v, &n).2.raw <= 7 * bound,
{
    let one = ONE_RAW as int;
    let big = v.dot_raw(n);
    lemma_product_bound(v.0.raw as int, n.0.raw as int, bound, one);
    lemma_product_bound(v.1.raw as int, n.1.raw as int, bound, one);
    lemma_product_bound(v.2.raw as int, n.2.raw as int, bound, one);
    assert(bound * one <= 0x1000_0000_0000_0000 * 0x1_0000_0000) by (nonlinear_arith)
        requires
            0 <= bound <= 0x1000_0000_0000_0000,
            one == 0x1_0000_0000,
    ;
    lemma_descale(big);
    let d = descale(big);
    assert(-3 * bound <= d <= 3 * bound) by (nonlinear_arith)
        requires
            magnitude(d) * one <= magnitude(big),
            magnitude(big) <= 3 * (bound * one),
            one > 0,
    ;
    let two = Fixed::from_int(2i32);
    assert(two.raw == 2 * one);
    let dif = two.spec_mul(v.spec_dot(&n)).raw as int;
    assert(dif == 2 * d) by {
        assert((2 * one) * d == (2 * d) * one) by (nonlinear_arith);
        lemma_exact_quotient(2 * d, one);
        assert(tdiv((2 * d) * one, one) == 2 * d);
    }
    let ghost g0 = lemma_scaled_component(n.0.raw as int, dif, 6 * bound);
    let ghost g1 = lemma_scaled_component(n.1.raw as int, dif, 6 * bound);
    let ghost g2 = lemma_scaled_component(n.2.raw as int, dif, 6 * bound);
    let r = Vec3::spec_reflect(&v, &n);
    assert(r.0.raw == v.0.raw - g0);
    assert(r.1.raw == v.1.raw - g1);
    assert(r.2.raw == v.2.raw - g2);
}

/// One component of a normal scaled by `k`: the product of `x`, within
/// `[-1, 1]`, and `k`, within `bound`, rescaled.  The lemma returns it.
proof fn lemma_scaled_component(x: int, k: int, bound: int) -> (g: int)
    requires
        -ONE_RAW <= x <= ONE_RAW,
        0 <= bound <= i64::MAX,
        -bound <= k <= bound,
    ensures
        g == descale(x * k),
        -ONE_RAW < g * ONE_RAW - x * k < ONE_RAW,
        -bound <= g <= bound,
        sat(g) == g,
        sat(-g) == -g,
{
    let one = ONE_RAW as int;
    lemma_product_bound(x, k, one, bound);
    assert(one * bound <= 0x1_0000_0000 * 0x7fff_ffff_ffff_ffff) by (nonlinear_arith)
        requires
            0 <= bound <= 0x7fff_ffff_ffff_ffff,
            one == 0x1_0000_0000,
    ;
    lemma_descale(x * k);
    let g = descale(x * k);
    assert(-bound <= g <= bound) by (nonlinear_arith)
        requires
            magnitude(g) * one <= magnitude(x * k),
            magnitude(x * k) <= one * bound,
            one > 0,
            bound >= 0,
    ;
    g
}

/// How far, in raw units, a component may move when a vector with
/// components within `bound` is reflected twice about a unit normal.
pub open spec fn reflect_tolerance(bound: int) -> int {
    11 + (96 * bound) / (ONE_RAW as int)
}

/// The second dot product of a double reflection nearly cancels the
/// first: with `d` the first, `d2` the second, `eta` the excess of the
/// squared length of the normal over one, and the rounding errors as in
/// `lemma_reflect_parts`, the sum `d + d2` is below `5 + 16 |d| / 2^32`.
proof fn lemma_dots_cancel(
    d: int,
    d2: int,
    rho: int,
    rho2: int,
    eta: int,
    slip: int,
    big: int,
    big2: int,
    shift: int,
)
    requires
        // big = d one + rho, big2 = d2 one + rho2
        big == d * ONE_RAW + rho,
        big2 == d2 * ONE_RAW + rho2,
        -ONE_RAW < rho < ONE_RAW,
        -ONE_RAW < rho2 < ONE_RAW,
        -8 * ONE_RAW <= eta <= 8 * ONE_RAW,
        -3 * (ONE_RAW * ONE_RAW) <= slip <= 3 * (ONE_RAW * ONE_RAW),
        // big2 = big - shift, one shift = 2 d (one^2 + eta) + slip
        big2 == big - shift,
        shift * ONE_RAW == 2 * d * (ONE_RAW * ONE_RAW + eta) + slip,
    ensures
        magnitude(d + d2) * ONE_RAW < 5 * ONE_RAW + 16 * magnitude(d),
{
    let one = ONE_RAW as int;
    let k = d + d2;
    // one big2 + d one^2 = one rho - 2 d eta - slip
    let de = d * eta;
    assert(one * big2 + d * (one * one) == one * rho - 2 * de - slip) by (nonlinear_arith)
        requires
            big == d * one + rho,
            big2 == big - shift,
            shift * one == 2 * d * (one * one + eta) + slip,
            de == d * eta,
    ;
    assert(one * big2 == d2 * (one * one) + one * rho2) by (nonlinear_arith)
        requires
            big2 == d2 * one + rho2,
    ;
    assert(k * (one * one) == one * rho - one * rho2 - 2 * de - slip) by (nonlinear_arith)
        requires
            k == d + d2,
            one * big2 + d * (one * one) == one * rho - 2 * de - slip,
            one * big2 == d2 * (one * one) + one * rho2,
    ;
    lemma_product_bound(d, eta, magnitude(d), 8 * one);
    assert(magnitude(d) * (8 * one) == 8 * (magnitude(d) * one)) by (nonlinear_arith);
    assert(16 * magnitude(d) * one == 16 * (magnitude(d) * one)) by (nonlinear_arith);
    assert(-(one * one) < one * rho < one * one) by (nonlinear_arith)
        requires
            -one < rho < one,
            one > 0,
    ;
    assert(-(one * one) < one * rho2 < one * one) by (nonlinear_arith)
        requires
            -one < rho2 < one,
            one > 0,
    ;
    let bound = 5 * (one * one) + 16 * magnitude(d) * one;
    assert(-bound < k * (one * one) < bound);
    assert(magnitude(k) * (one * one) < bound) by (nonlinear_arith)
        requires
            -bound < k * (one * one) < bound,
    ;
    assert(magnitude(k) * one < 5 * one + 16 * magnitude(d)) by (nonlinear_arith)
        requires
            magnitude(k) * (one * one) < 5 * (one * one) + 16 * magnitude(d) * one,
            one > 0,
    ;
}

/// Reflection undoes itself.  Where both reflections stay in range,
/// reflecting a vector twice about the same unit normal moves no
/// component by more than `reflect_slack` of the dot product with the
/// normal, and so keeps the dot product with the vector, which is the
/// squared length: exactly, to within the slack times the sum of the
/// magnitudes of the components, and as computed, to within two units of
/// rounding more.
pub proof fn lemma_reflect_twice_in_range(v: Vec3, n: Vec3)
    requires
        is_unit(n),
        reflects_in_range(v, n),
        reflects_in_range(Vec3::spec_reflect(&v, &n), n),
    ensures
        ({
            let back = Vec3::spec_reflect(&Vec3::spec_reflect(&v, &n), &n);
            let slack = reflect_slack(v.spec_dot(&n).raw as int);
            &&& magnitude(back.0.raw - v.0.raw) <= slack
            &&& magnitude(back.1.raw - v.1.raw) <= slack
            &&& magnitude(back.2.raw - v.2.raw) <= slack
            &&& magnitude(back.dot_raw(v) - v.dot_raw(v)) <= slack * taxicab(v)
            &&& magnitude(back.spec_dot(&v).raw - v.spec_dot(&v).raw) * ONE_RAW < slack
                * taxicab(v) + 2 * ONE_RAW
        }),
{
    let one = ONE_RAW as int;
    let r = Vec3::spec_reflect(&v, &n);
    let back = Vec3::spec_reflect(&r, &n);
    let (d, e0, e1, e2) = lemma_reflect_parts(v, n);
    let (d2, f0, f1, f2) = lemma_reflect_parts(r, n);
    let (n0, n1, n2) = (n.0.raw as int, n.1.raw as int, n.2.raw as int);
    let (g0, g1, g2) = (v.0.raw - r.0.raw, v.1.raw - r.1.raw, v.2.raw - r.2.raw);
    let (h0, h1, h2) = (r.0.raw - back.0.raw, r.1.raw - back.1.raw, r.2.raw - back.2.raw);
    let big = v.dot_raw(n);
    let big2 = r.dot_raw(n);
    let shift = g0 * n0 + g1 * n1 + g2 * n2;
    assert(big2 == big - shift) by (nonlinear_arith)
        requires
            big == v.0.raw * n0 + v.1.raw * n1 + v.2.raw * n2,
            big2 == r.0.raw * n0 + r.1.raw * n1 + r.2.raw * n2,
            shift == (v.0.raw - r.0.raw) * n0 + (v.1.raw - r.1.raw) * n1 + (v.2.raw - r.2.raw)
                * n2,
    ;
    let eta = n.dot_raw(n) - one * one;
    let slip = e0 * n0 + e1 * n1 + e2 * n2;
    lemma_product_bound(e0, n0, one, one);
    lemma_product_bound(e1, n1, one, one);
    lemma_product_bound(e2, n2, one, one);
    lemma_shift_term(g0, n0, d, e0);
    lemma_shift_term(g1, n1, d, e1);
    lemma_shift_term(g2, n2, d, e2);
    let (p0, p1, p2) = (g0 * n0, g1 * n1, g2 * n2);
    let (q0, q1, q2) = (n0 * n0, n1 * n1, n2 * n2);
    assert(shift * one == 2 * d * (one * one + eta) + slip) by (nonlinear_arith)
        requires
            shift == p0 + p1 + p2,
            p0 * one == 2 * d * q0 + e0 * n0,
            p1 * one == 2 * d * q1 + e1 * n1,
            p2 * one == 2 * d * q2 + e2 * n2,
            one * one + eta == q0 + q1 + q2,
            slip == e0 * n0 + e1 * n1 + e2 * n2,
    ;
    lemma_dots_cancel(d, d2, big - d * one, big2 - d2 * one, eta, slip, big, big2, shift);
    let k = d + d2;
    let slack = reflect_slack(d);
    // 2 |k| one < 10 one + 32 |d|, so 2 |k| <= 10 + 32 |d| / one.
    assert(2 * magnitude(k) + 1 <= slack) by {
        let y = 32 * magnitude(d);
        vstd::arithmetic::div_mod::lemma_fundamental_div_mod(y, one);
        vstd::arithmetic::div_mod::lemma_mod_bound(y, one);
        let q = y / one;
        assert(2 * magnitude(k) <= 10 + q) by (nonlinear_arith)
            requires
                magnitude(k) * one < 5 * one + 16 * magnitude(d),
                y == 32 * magnitude(d),
                y == one * q + y % one,
                0 <= y % one < one,
                one > 0,
        ;
    }
    lemma_double_shift(g0, h0, n0, d, d2, e0, f0);
    lemma_double_shift(g1, h1, n1, d, d2, e1, f1);
    lemma_double_shift(g2, h2, n2, d, d2, e2, f2);
    assert(back.0.raw - v.0.raw == -(g0 + h0));
    assert(back.1.raw - v.1.raw == -(g1 + h1));
    assert(back.2.raw - v.2.raw == -(g2 + h2));
    let (m0, m1, m2) = (back.0.raw - v.0.raw, back.1.raw - v.1.raw, back.2.raw - v.2.raw);
    let (a0, a1, a2) = (
        magnitude(v.0.raw as int),
        magnitude(v.1.raw as int),
        magnitude(v.2.raw as int),
    );
    lemma_product_bound(m0, v.0.raw as int, slack, a0);
    lemma_product_bound(m1, v.1.raw as int, slack, a1);
    lemma_product_bound(m2, v.2.raw as int, slack, a2);
    assert(slack * a0 + slack * a1 + slack * a2 == slack * taxicab(v)) by (nonlinear_arith)
        requires
            taxicab(v) == a0 + a1 + a2,
    ;
    assert(back.dot_raw(v) - v.dot_raw(v) == m0 * v.0.raw + m1 * v.1.raw + m2 * v.2.raw)
        by (nonlinear_arith)
        requires
            m0 == back.0.raw - v.0.raw,
            m1 == back.1.raw - v.1.raw,
            m2 == back.2.raw - v.2.raw,
            back.dot_raw(v) == back.0.raw * v.0.raw + back.1.raw * v.1.raw + back.2.raw
                * v.2.raw,
            v.dot_raw(v) == v.0.raw * v.0.raw + v.1.raw * v.1.raw + v.2.raw * v.2.raw,
    ;
    lemma_descale_lipschitz(back.dot_raw(v), v.dot_raw(v));
}

/// Reflection undoes itself for every vector of moderate size: where the
/// components are within `bound`, at most `2^25`, both reflections stay in
/// range, no component moves by more than `reflect_tolerance`, and the
/// exact dot product with the vector is kept to within three times the
/// tolerance times the bound.
pub proof fn lemma_reflect_twice(v: Vec3, n: Vec3, bound: int)
    requires
        is_unit(n),
        0 <= bound <= 0x200_0000_0000_0000,
        -bound <= v.0.raw <= bound,
        -bound <= v.1.raw <= bound,
        -bound <= v.2.raw <= bound,
    ensures
        reflects_in_range(v, n),
        reflects_in_range(Vec3::spec_reflect(&v, &n), n),
        ({
            let back = Vec3::spec_reflect(&Vec3::spec_reflect(&v, &n), &n);
            let tolerance = reflect_tolerance(bound);
            &&& magnitude(back.0.raw - v.0.raw) <= tolerance
            &&& magnitude(back.1.raw - v.1.raw) <= tolerance
            &&& magnitude(back.2.raw - v.2.raw) <= tolerance
            &&& magnitude(back.dot_raw(v) - v.dot_raw(v)) <= 3 * (tolerance * bound)
        }),
{
    let one = ONE_RAW as int;
    let r = Vec3::spec_reflect(&v, &n);
    let back = Vec3::spec_reflect(&r, &n);
    lemma_reflect_bounded(v, n, bound);
    lemma_reflect_bounded(r, n, 7 * bound);
    lemma_reflect_twice_in_range(v, n);
    let d = v.spec_dot(&n).raw as int;
    let slack = reflect_slack(d);
    let tolerance = reflect_tolerance(bound);
    assert(slack <= tolerance) by {
        vstd::arithmetic::div_mod::lemma_div_is_ordered(32 * magnitude(d), 96 * bound, one);
    }
    let (m0, m1, m2) = (back.0.raw - v.0.raw, back.1.raw - v.1.raw, back.2.raw - v.2.raw);
    lemma_product_bound(m0, v.0.raw as int, tolerance, bound);
    lemma_product_bound(m1, v.1.raw as int, tolerance, bound);
    lemma_product_bound(m2, v.2.raw as int, tolerance, bound);
    assert(back.dot_raw(v) - v.dot_raw(v) == m0 * v.0.raw + m1 * v.1.raw + m2 * v.2.raw)
        by (nonlinear_arith)
        requires
            m0 == back.0.raw - v.0.raw,
            m1 == back.1.raw - v.1.raw,
            m2 == back.2.raw - v.2.raw,
            back.dot_raw(v) == back.0.raw * v.0.raw + back.1.raw * v.1.raw + back.2.raw
                * v.2.raw,
            v.dot_raw(v) == v.0.raw * v.0.raw + v.1.raw * v.1.raw + v.2.raw * v.2.raw,
    ;
}

/// One term of the change that a reflection makes to the dot product with
/// the normal.
proof fn lemma_shift_term(g: int, x: int, d: int, e: int)
    requires
        g * ONE_RAW == 2 * d * x + e,
    ensures
        (g * x) * ONE_RAW == 2 * d * (x * x) + e * x,
{
    assert((g * x) * ONE_RAW == (g * ONE_RAW) * x) by (nonlinear_arith);
    assert((2 * d * x + e) * x == 2 * d * (x * x) + e * x) by (nonlinear_arith);
}

/// The two shifts of a component in a double reflection nearly cancel:
/// with `g` and `h` the shifts, their sum is at most `2 |d + d2| + 1`.
proof fn lemma_double_shift(g: int, h: int, x: int, d: int, d2: int, e: int, f: int)
    requires
        -ONE_RAW <= x <= ONE_RAW,
        g * ONE_RAW == 2 * d * x + e,
        h * ONE_RAW == 2 * d2 * x + f,
        -ONE_RAW < e < ONE_RAW,
        -ONE_RAW < f < ONE_RAW,
    ensures
        magnitude(g + h) <= 2 * magnitude(d + d2) + 1,
{
    let one = ONE_RAW as int;
    let k = d + d2;
    assert((g + h) * one == 2 * k * x + e + f) by (nonlinear_arith)
        requires
            g * one == 2 * d * x + e,
            h * one == 2 * d2 * x + f,
            k == d + d2,
    ;
    lemma_product_bound(k, x, magnitude(k), one);
    assert(2 * k * x == 2 * (k * x)) by (nonlinear_arith);
    assert(magnitude(g + h) * one < (2 * magnitude(k) + 2) * one) by (nonlinear_arith)
        requires
            (g + h) * one == 2 * (k * x) + e + f,
            -(magnitude(k) * one) <= k * x <= magnitude(k) * one,
            -one < e < one,
            -one < f < one,
    ;
    assert(magnitude(g + h) < 2 * magnitude(k) + 2) by (nonlinear_arith)
        requires
            magnitude(g + h) * one < (2 * magnitude(k) + 2) * one,
            one > 0,
    ;
}

/// Reflecting twice keeps the dot product with the vector, as the vector
/// operations compute it, to within the tolerance of the components
/// summed over the vector and two units of rounding, for components
/// within `bound`, at most `2^25`.
pub proof fn lemma_reflect_twice_keeps_dot(v: Vec3, n: Vec3, bound: int)
    requires
        is_unit(n),
        0 <= bound <= 0x200_0000_0000_0000,
        -bound <= v.0.raw <= bound,
        -bound <= v.1.raw <= bound,
        -bound <= v.2.raw <= bound,
    ensures
        ({
            let back = Vec3::spec_reflect(&Vec3::spec_reflect(&v, &n), &n);
            magnitude(back.spec_dot(&v).raw - v.spec_dot(&v).raw) * ONE_RAW <= 3 * (
            reflect_tolerance(bound) * bound) + 2 * ONE_RAW
        }),
{
    lemma_reflect_twice(v, n, bound);
    let back = Vec3::spec_reflect(&Vec3::spec_reflect(&v, &n), &n);
    lemma_descale_lipschitz(back.dot_raw(v), v.dot_raw(v));
}

/// How far, in raw units, a component of a unit direction may move when
/// it is refracted with an index ratio of one: `2^19`, that is `2^-13`.
pub open spec fn refract_tolerance() -> int {
    0x8_0000
}

/// The square of a component of the perpendicular part of a refraction,
/// scaled by `2^64` and written out: with `h one = n c + d`, the square of
/// `one (u + h)` has six terms.
proof fn lemma_perp_term(u: int, n: int, c: int, h: int, d: int)
    requires
        h * ONE_RAW == n * c + d,
    ensures
        (ONE_RAW * ONE_RAW) * ((u + h) * (u + h)) == (ONE_RAW * ONE_RAW) * (u * u) + (c * c) * (n
            * n) + d * d + 2 * ((ONE_RAW * c) * (u * n)) + 2 * (ONE_RAW * (u * d)) + 2 * (c * (n
            * d)),
{
    let one = ONE_RAW as int;
    let a = one * u;
    let b = n * c;
    assert(one * (u + h) == a + b + d) by (nonlinear_arith)
        requires
            a == one * u,
            h * one == b + d,
    ;
    assert((one * one) * ((u + h) * (u + h)) == (one * (u + h)) * (one * (u + h)))
        by (nonlinear_arith);
    assert((a + b + d) * (a + b + d) == a * a + b * b + d * d + 2 * (a * b) + 2 * (a * d) + 2 * (b
        * d)) by (nonlinear_arith);
    assert(a * a == (one * one) * (u * u)) by (nonlinear_arith)
        requires
            a == one * u,
    ;
    assert(b * b == (c * c) * (n * n)) by (nonlinear_arith)
        requires
            b == n * c,
    ;
    assert(a * b == (one * c) * (u * n)) by (nonlinear_arith)
        requires
            a == one * u,
            b == n * c,
    ;
    assert(a * d == one * (u * d)) by (nonlinear_arith)
        requires
            a == one * u,
    ;
    assert(b * d == c * (n * d)) by (nonlinear_arith)
        requires
            b == n * c,
    ;
}

/// The squared length of the perpendicular part of a refraction with index
/// ratio one.  For unit vectors with squared raw lengths `uu` and `nn`
/// and raw dot product `-big`, a cosine `c` of `[0, 1)` that is `big`
/// rescaled, and the roundings `d` of the three products with the normal,
/// the squared raw length `p` of the perpendicular part is `one^2 - c^2`
/// to within 31 units of `2^32`.
proof fn lemma_perp_square(
    p: int,
    uu: int,
    nn: int,
    big: int,
    c: int,
    sum_dd: int,
    sum_ud: int,
    sum_nd: int,
)
    requires
        0 <= c < ONE_RAW,
        ONE_RAW * ONE_RAW - 8 * ONE_RAW <= uu <= ONE_RAW * ONE_RAW + 8 * ONE_RAW,
        ONE_RAW * ONE_RAW - 8 * ONE_RAW <= nn <= ONE_RAW * ONE_RAW + 8 * ONE_RAW,
        -ONE_RAW < big - c * ONE_RAW < ONE_RAW,
        0 <= sum_dd <= 3 * (ONE_RAW * ONE_RAW),
        -3 * (ONE_RAW * ONE_RAW) <= sum_ud <= 3 * (ONE_RAW * ONE_RAW),
        -3 * (ONE_RAW * ONE_RAW) <= sum_nd <= 3 * (ONE_RAW * ONE_RAW),
        (ONE_RAW * ONE_RAW) * p == (ONE_RAW * ONE_RAW) * uu + (c * c) * nn + sum_dd - 2 * ((
        ONE_RAW * c) * big) + 2 * (ONE_RAW * sum_ud) + 2 * (c * sum_nd),
    ensures
        -31 * ONE_RAW <= p - (ONE_RAW * ONE_RAW - c * c) <= 31 * ONE_RAW,
{
    let one = ONE_RAW as int;
    let w = one * one;
    let cc = c * c;
    let alpha = uu - w;
    let eta = nn - w;
    let rho = big - c * one;
    assert(0 <= cc <= w) by (nonlinear_arith)
        requires
            0 <= c < one,
            cc == c * c,
            w == one * one,
    ;
    // The terms of w p, each against w (w - cc).
    assert(w * uu == w * w + w * alpha) by (nonlinear_arith)
        requires
            alpha == uu - w,
    ;
    assert(cc * nn == cc * w + cc * eta) by (nonlinear_arith)
        requires
            eta == nn - w,
    ;
    assert((one * c) * big == cc * w + (one * c) * rho) by (nonlinear_arith)
        requires
            rho == big - c * one,
            cc == c * c,
            w == one * one,
    ;
    let err = w * alpha + cc * eta + sum_dd - 2 * ((one * c) * rho) + 2 * (one * sum_ud) + 2 * (c
        * sum_nd);
    assert(w * p == w * w - cc * w + err);
    // The size of each part of the error.
    let w3 = w * one;
    assert(-8 * w3 <= w * alpha <= 8 * w3) by (nonlinear_arith)
        requires
            -8 * one <= alpha <= 8 * one,
            w > 0,
            w3 == w * one,
    ;
    assert(-8 * w3 <= cc * eta <= 8 * w3) by (nonlinear_arith)
        requires
            -8 * one <= eta <= 8 * one,
            0 <= cc <= w,
            w3 == w * one,
    ;
    assert(-w3 <= (one * c) * rho <= w3) by (nonlinear_arith)
        requires
            -one < rho < one,
            0 <= c < one,
            w3 == (one * one) * one,
            one > 0,
    ;
    assert(-3 * w3 <= one * sum_ud <= 3 * w3) by (nonlinear_arith)
        requires
            -3 * w <= sum_ud <= 3 * w,
            w3 == w * one,
            one > 0,
    ;
    assert(-3 * w3 <= c * sum_nd <= 3 * w3) by (nonlinear_arith)
        requires
            -3 * w <= sum_nd <= 3 * w,
            0 <= c < one,
            w3 == w * one,
            w > 0,
    ;
    assert(3 * w <= w3) by (nonlinear_arith)
        requires
            w3 == w * one,
            one >= 3,
            w > 0,
    ;
    assert(-31 * w3 <= err <= 31 * w3);
    let gap = p - (w - cc);
    assert(w * gap == err) by (nonlinear_arith)
        requires
            w * p == w * w - cc * w + err,
            gap == p - (w - cc),
    ;
    assert(-31 * one <= gap <= 31 * one) by (nonlinear_arith)
        requires
            -31 * (w * one) <= w * gap <= 31 * (w * one),
            w > 0,
    ;
}

/// A square root near a cosine: where `k one` is `c^2` to within 32 units
/// of `2^32`, its integer square root is `c` to within 370728.
proof fn lemma_root_near(sq: int, k: int, c: int)
    requires
        0 <= c <= ONE_RAW,
        0 <= sq,
        sq * sq <= k * ONE_RAW < (sq + 1) * (sq + 1),
        c * c - 31 * ONE_RAW <= k * ONE_RAW < c * c + 32 * ONE_RAW,
    ensures
        -370728 <= sq - c <= 370728,
{
    let one = ONE_RAW as int;
    let b = 370728int;
    assert(b * b > 32 * one) by (nonlinear_arith)
        requires
            b == 370728,
            one == 0x1_0000_0000,
    ;
    if sq >= c + b + 1 {
        lemma_square_monotone(c + b, sq);
        assert((c + b) * (c + b) >= c * c + b * b) by (nonlinear_arith)
            requires
                c >= 0,
                b >= 0,
        ;
    }
    if sq + 1 <= c - b {
        lemma_square_monotone(sq + 1, c - b);
        assert((c - b) * (c - b) <= c * c - b * b) by (nonlinear_arith)
            requires
                c >= b,
                b >= 0,
        ;
    }
}

/// The two pushes along the normal of a refraction with index ratio one
/// nearly cancel: with `h` the push by the cosine and `j` the push back by
/// the root, their sum is at most the gap between cosine and root plus
/// one.
proof fn lemma_pushes_cancel(h: int, j: int, x: int, c: int, sq: int, gap: int)
    requires
        -ONE_RAW <= x <= ONE_RAW,
        -ONE_RAW < h * ONE_RAW - x * c < ONE_RAW,
        -ONE_RAW < j * ONE_RAW - x * (-sq) < ONE_RAW,
        0 <= gap,
        -gap <= c - sq <= gap,
    ensures
        magnitude(h + j) <= gap + 1,
{
    let one = ONE_RAW as int;
    let t = c - sq;
    assert(x * c + x * (-sq) == x * t) by (nonlinear_arith)
        requires
            t == c - sq,
    ;
    lemma_product_bound(x, t, one, gap);
    assert((h + j) * one == h * one + j * one) by (nonlinear_arith);
    assert(magnitude(h + j) * one < (gap + 2) * one) by (nonlinear_arith)
        requires
            -(one * gap) - 2 * one < (h + j) * one < one * gap + 2 * one,
    ;
    assert(magnitude(h + j) < gap + 2) by (nonlinear_arith)
        requires
            magnitude(h + j) * one < (gap + 2) * one,
            one > 0,
    ;
}

/// A medium with the index of its surroundings does not bend a ray: where
/// a unit direction meets a unit normal that faces it, refraction with an
/// index ratio of one moves no component of the direction by more than
/// `refract_tolerance`, whatever the angle.
pub proof fn lemma_refract_straight(u: Vec3, n: Vec3)
    requires
        is_unit(u),
        is_unit(n),
        u.spec_neg().spec_dot(&n).raw >= 0,
    ensures
        ({
            let out = Vec3::spec_refract(&u, &n, Fixed::one());
            &&& magnitude(out.0.raw - u.0.raw) <= refract_tolerance()
            &&& magnitude(out.1.raw - u.1.raw) <= refract_tolerance()
            &&& magnitude(out.2.raw - u.2.raw) <= refract_tolerance()
        }),
{
    let one = ONE_RAW as int;
    let w = one * one;
    assert(w == 0x1_0000_0000_0000_0000) by (nonlinear_arith)
        requires
            w == one * one,
            one == 0x1_0000_0000,
    ;
    let (u0, u1, u2) = (u.0.raw as int, u.1.raw as int, u.2.raw as int);
    let (n0, n1, n2) = (n.0.raw as int, n.1.raw as int, n.2.raw as int);
    let uu = u.dot_raw(u);
    let nn = n.dot_raw(n);
    // The cosine.
    let back = u.spec_neg();
    let big = back.dot_raw(n);
    let sum_un = u0 * n0 + u1 * n1 + u2 * n2;
    assert(big == -sum_un) by (nonlinear_arith)
        requires
            big == (-u0) * n0 + (-u1) * n1 + (-u2) * n2,
            sum_un == u0 * n0 + u1 * n1 + u2 * n2,
    ;
    lemma_product_bound(u0, n0, one, one);
    lemma_product_bound(u1, n1, one, one);
    lemma_product_bound(u2, n2, one, one);
    lemma_descale(big);
    let c = descale(big);
    assert(c == back.spec_dot(&n).raw);
    assert(0 <= c <= 3 * one) by (nonlinear_arith)
        requires
            0 <= c,
            magnitude(c) * one <= magnitude(big),
            magnitude(big) <= 3 * (one * one),
            one > 0,
    ;
    let cos = if c < one {
        c
    } else {
        one
    };
    let cos_theta = Fixed { raw: cos as i64 };
    // The perpendicular part.
    let h0 = lemma_scaled_component(n0, cos, one);
    let h1 = lemma_scaled_component(n1, cos, one);
    let h2 = lemma_scaled_component(n2, cos, one);
    let (w0, w1, w2) = (u0 + h0, u1 + h1, u2 + h2);
    let perp = u.spec_add(n.scale(cos_theta)).scale(Fixed::one());
    lemma_exact_quotient(w0, one);
    lemma_exact_quotient(w1, one);
    lemma_exact_quotient(w2, one);
    assert(perp.0.raw == w0 && perp.1.raw == w1 && perp.2.raw == w2);
    let p = perp.dot_raw(perp);
    lemma_product_bound(w0, w0, 2 * one, 2 * one);
    lemma_product_bound(w1, w1, 2 * one, 2 * one);
    lemma_product_bound(w2, w2, 2 * one, 2 * one);
    assert((2 * one) * (2 * one) == 4 * w) by (nonlinear_arith)
        requires
            w == one * one,
    ;
    assert(w0 * w0 >= 0 && w1 * w1 >= 0 && w2 * w2 >= 0) by (nonlinear_arith);
    lemma_descale(p);
    let lsq = descale(p);
    assert(lsq == perp.spec_length_squared().raw);
    assert(0 <= lsq <= 12 * one) by (nonlinear_arith)
        requires
            0 <= lsq,
            magnitude(lsq) * one <= magnitude(p),
            0 <= p <= 12 * (one * one),
            one > 0,
    ;
    // The parallel part.
    let k_fixed = Fixed::one().spec_sub(perp.spec_length_squared()).spec_abs();
    let k = magnitude(one - lsq);
    assert(k_fixed.raw == k);
    k_fixed.lemma_sqrt_range();
    let sq = k_fixed.spec_sqrt().raw as int;
    let back_root = Fixed::from_int(-1i32).spec_mul(k_fixed.spec_sqrt());
    assert(back_root.raw == -sq) by {
        assert((-one) * sq == (-sq) * one) by (nonlinear_arith);
        lemma_exact_quotient(-sq, one);
    }
    let j0 = lemma_scaled_component(n0, -sq, 0x1_0000_0000_0000);
    let j1 = lemma_scaled_component(n1, -sq, 0x1_0000_0000_0000);
    let j2 = lemma_scaled_component(n2, -sq, 0x1_0000_0000_0000);
    let out = Vec3::spec_refract(&u, &n, Fixed::one());
    assert(out == perp.spec_add(n.scale(back_root)));
    // The gap between the cosine and the root.
    let gap = 370728int;
    assert(-gap <= cos - sq <= gap) by {
        if c >= one {
            assert(h0 == n0 && h1 == n1 && h2 == n2) by {
                lemma_exact_quotient(n0, one);
                lemma_exact_quotient(n1, one);
                lemma_exact_quotient(n2, one);
            }
            assert(p == uu + nn - 2 * big) by (nonlinear_arith)
                requires
                    p == (u0 + n0) * (u0 + n0) + (u1 + n1) * (u1 + n1) + (u2 + n2) * (u2 + n2),
                    uu == u0 * u0 + u1 * u1 + u2 * u2,
                    nn == n0 * n0 + n1 * n1 + n2 * n2,
                    big == -(u0 * n0 + u1 * n1 + u2 * n2),
            ;
            assert(c * one >= w) by (nonlinear_arith)
                requires
                    c >= one,
                    w == one * one,
                    one > 0,
            ;
            assert(p < 18 * one);
            assert(lsq <= 18) by (nonlinear_arith)
                requires
                    p < 18 * one,
                    p - lsq * one > -one,
                    one > 0,
            ;
            assert(k * one >= w - 18 * one) by (nonlinear_arith)
                requires
                    k >= one - 18,
                    w == one * one,
                    one > 0,
            ;
            assert(k * one <= w) by (nonlinear_arith)
                requires
                    k <= one,
                    w == one * one,
                    one > 0,
            ;
            if sq > one {
                lemma_square_monotone(one + 1, sq);
                assert((one + 1) * (one + 1) > w) by (nonlinear_arith)
                    requires
                        w == one * one,
                        one > 0,
                ;
            }
            if sq < one - 10 {
                lemma_square_monotone(sq + 1, one - 10);
                assert((one - 10) * (one - 10) == w - 20 * one + 100) by (nonlinear_arith)
                    requires
                        w == one * one,
                ;
            }
        } else {
            let (d0, d1, d2) = (h0 * one - n0 * c, h1 * one - n1 * c, h2 * one - n2 * c);
            lemma_perp_term(u0, n0, c, h0, d0);
            lemma_perp_term(u1, n1, c, h1, d1);
            lemma_perp_term(u2, n2, c, h2, d2);
            let sum_dd = d0 * d0 + d1 * d1 + d2 * d2;
            let sum_ud = u0 * d0 + u1 * d1 + u2 * d2;
            let sum_nd = n0 * d0 + n1 * d1 + n2 * d2;
            lemma_product_bound(d0, d0, one, one);
            lemma_product_bound(d1, d1, one, one);
            lemma_product_bound(d2, d2, one, one);
            assert(d0 * d0 >= 0 && d1 * d1 >= 0 && d2 * d2 >= 0) by (nonlinear_arith);
            lemma_product_bound(u0, d0, one, one);
            lemma_product_bound(u1, d1, one, one);
            lemma_product_bound(u2, d2, one, one);
            lemma_product_bound(n0, d0, one, one);
            lemma_product_bound(n1, d1, one, one);
            lemma_product_bound(n2, d2, one, one);
            let cc = c * c;
            let oc = one * c;
            assert(w * p == w * (w0 * w0) + w * (w1 * w1) + w * (w2 * w2)) by (nonlinear_arith)
                requires
                    p == w0 * w0 + w1 * w1 + w2 * w2,
            ;
            assert(w * uu == w * (u0 * u0) + w * (u1 * u1) + w * (u2 * u2)) by (nonlinear_arith)
                requires
                    uu == u0 * u0 + u1 * u1 + u2 * u2,
            ;
            assert(cc * nn == cc * (n0 * n0) + cc * (n1 * n1) + cc * (n2 * n2))
                by (nonlinear_arith)
                requires
                    nn == n0 * n0 + n1 * n1 + n2 * n2,
            ;
            assert(oc * sum_un == oc * (u0 * n0) + oc * (u1 * n1) + oc * (u2 * n2))
                by (nonlinear_arith)
                requires
                    sum_un == u0 * n0 + u1 * n1 + u2 * n2,
            ;
            assert(oc * big == -(oc * sum_un)) by (nonlinear_arith)
                requires
                    big == -sum_un,
            ;
            assert(one * sum_ud == one * (u0 * d0) + one * (u1 * d1) + one * (u2 * d2))
                by (nonlinear_arith)
                requires
                    sum_ud == u0 * d0 + u1 * d1 + u2 * d2,
            ;
            assert(c * sum_nd == c * (n0 * d0) + c * (n1 * d1) + c * (n2 * d2))
                by (nonlinear_arith)
                requires
                    sum_nd == n0 * d0 + n1 * d1 + n2 * d2,
            ;
            lemma_perp_square(p, uu, nn, big, c, sum_dd, sum_ud, sum_nd);
            // From the squared length to the root.
            assert(0 <= cc < w) by (nonlinear_arith)
                requires
                    0 <= c < one,
                    cc == c * c,
                    w == one * one,
            ;
            let diff = one - lsq;
            assert(diff * one == w - lsq * one) by (nonlinear_arith)
                requires
                    diff == one - lsq,
                    w == one * one,
            ;
            assert(cc - 31 * one <= diff * one < cc + 32 * one);
            assert(k * one == magnitude(diff * one)) by (nonlinear_arith)
                requires
                    k == magnitude(diff),
                    one > 0,
            ;
            lemma_root_near(sq, k, c);
        }
    }
    lemma_pushes_cancel(h0, j0, n0, cos, sq, gap);
    lemma_pushes_cancel(h1, j1, n1, cos, sq, gap);
    lemma_pushes_cancel(h2, j2, n2, cos, sq, gap);
    assert(out.0.raw == w0 + j0);
    assert(out.1.raw == w1 + j1);
    assert(out.2.raw == w2 + j2);
}

/// The sum of the magnitudes of the components, in raw units.
pub open spec fn taxicab(v: Vec3) -> int {
    magnitude(v.0.raw as int) + magnitude(v.1.raw as int) + magnitude(v.2.raw as int)
}

/// One component of a cross product: the difference of two products,
/// rescaled.  The lemma returns its rounding error.
proof fn lemma_cross_component(p: int, q: int, r: int, s: int) -> (e: int)
    requires
        -0x4000_0000_0000 <= p <= 0x4000_0000_0000,
        -0x4000_0000_0000 <= q <= 0x4000_0000_0000,
        -0x4000_0000_0000 <= r <= 0x4000_0000_0000,
        -0x4000_0000_0000 <= s <= 0x4000_0000_0000,
    ensures
        e == descale(p * q - r * s) * ONE_RAW - (p * q - r * s),
        -ONE_RAW < e < ONE_RAW,
{
    lemma_product_bound(p, q, 0x4000_0000_0000, 0x4000_0000_0000);
    lemma_product_bound(r, s, 0x4000_0000_0000, 0x4000_0000_0000);
    assert(0x4000_0000_0000int * 0x4000_0000_0000int == 0x1000_0000_0000_0000_0000_0000)
        by (nonlinear_arith);
    lemma_descale(p * q - r * s);
    descale(p * q - r * s) * ONE_RAW - (p * q - r * s)
}

/// A difference of two products times a third factor, multiplied out.
proof fn lemma_triple_product(p: int, q: int, r: int, s: int, k: int)
    ensures
        (p * q - r * s) * k == (p * q) * k - (r * s) * k,
{
    assert((p * q - r * s) * k == (p * q) * k - (r * s) * k) by (nonlinear_arith);
}

/// In a product of three factors the outer two may change places.
proof fn lemma_swap_outer(p: int, q: int, k: int)
    ensures
        (p * q) * k == (k * q) * p,
{
    assert((p * q) * k == (k * q) * p) by (nonlinear_arith);
}

/// In a product of three factors the last two may change places.
proof fn lemma_swap_inner(p: int, q: int, k: int)
    ensures
        (p * q) * k == (p * k) * q,
{
    assert((p * q) * k == (p * k) * q) by (nonlinear_arith);
}

/// One term of a dot product with a rounded vector, split into the exact
/// part and the rounding error.
proof fn lemma_residue_term(c: int, x: int, e: int, a: int)
    requires
        c * ONE_RAW == x + e,
    ensures
        (c * a) * ONE_RAW == x * a + e * a,
{
    assert((c * a) * ONE_RAW == (c * ONE_RAW) * a) by (nonlinear_arith);
    assert((x + e) * a == x * a + e * a) by (nonlinear_arith);
}

/// What is left of a dot product with a cross product when the exact
/// part, which vanishes, is taken away: the rounding errors against the
/// components.
proof fn lemma_cross_residue(
    c0: int,
    c1: int,
    c2: int,
    x0: int,
    x1: int,
    x2: int,
    e0: int,
    e1: int,
    e2: int,
    a0: int,
    a1: int,
    a2: int,
)
    requires
        c0 * ONE_RAW == x0 + e0,
        c1 * ONE_RAW == x1 + e1,
        c2 * ONE_RAW == x2 + e2,
        x0 * a0 + x1 * a1 + x2 * a2 == 0,
        -ONE_RAW < e0 < ONE_RAW,
        -ONE_RAW < e1 < ONE_RAW,
        -ONE_RAW < e2 < ONE_RAW,
    ensures
        magnitude(c0 * a0 + c1 * a1 + c2 * a2) <= magnitude(a0) + magnitude(a1) + magnitude(a2),
{
    let one = ONE_RAW as int;
    let dot = c0 * a0 + c1 * a1 + c2 * a2;
    lemma_residue_term(c0, x0, e0, a0);
    lemma_residue_term(c1, x1, e1, a1);
    lemma_residue_term(c2, x2, e2, a2);
    assert(dot * one == (c0 * a0) * one + (c1 * a1) * one + (c2 * a2) * one) by (nonlinear_arith)
        requires
            dot == c0 * a0 + c1 * a1 + c2 * a2,
    ;
    assert(dot * one == e0 * a0 + e1 * a1 + e2 * a2);
    lemma_product_bound(e0, a0, one, magnitude(a0));
    lemma_product_bound(e1, a1, one, magnitude(a1));
    lemma_product_bound(e2, a2, one, magnitude(a2));
    let sum = magnitude(a0) + magnitude(a1) + magnitude(a2);
    assert(one * magnitude(a0) + one * magnitude(a1) + one * magnitude(a2) == one * sum)
        by (nonlinear_arith)
        requires
            sum == magnitude(a0) + magnitude(a1) + magnitude(a2),
    ;
    assert(magnitude(dot) <= sum) by (nonlinear_arith)
        requires
            -(one * sum) <= dot * one <= one * sum,
            one > 0,
            sum >= 0,
    ;
}

/// A cross product is perpendicular to its factors: its exact dot product
/// with either is, in raw units, at most the sum of the magnitudes of the
/// components of that factor, which is `2^-32` of it in value.  The
/// components of the factors are to be within `2^14`.
pub proof fn lemma_cross_perpendicular(a: Vec3, b: Vec3)
    requires
        taxicab(a) <= 0x4000_0000_0000,
        taxicab(b) <= 0x4000_0000_0000,
    ensures
        magnitude(a.spec_cross(b).dot_raw(a)) <= taxicab(a),
        magnitude(a.spec_cross(b).dot_raw(b)) <= taxicab(b),
{
    let one = ONE_RAW as int;
    let (a0, a1, a2) = (a.0.raw as int, a.1.raw as int, a.2.raw as int);
    let (b0, b1, b2) = (b.0.raw as int, b.1.raw as int, b.2.raw as int);
    let x0 = a1 * b2 - a2 * b1;
    let x1 = a2 * b0 - a0 * b2;
    let x2 = a0 * b1 - a1 * b0;
    let e0 = lemma_cross_component(a1, b2, a2, b1);
    let e1 = lemma_cross_component(a2, b0, a0, b2);
    let e2 = lemma_cross_component(a0, b1, a1, b0);
    let c = a.spec_cross(b);
    lemma_triple_product(a1, b2, a2, b1, a0);
    lemma_triple_product(a2, b0, a0, b2, a1);
    lemma_triple_product(a0, b1, a1, b0, a2);
    lemma_swap_outer(a1, b2, a0);
    lemma_swap_outer(a2, b1, a0);
    lemma_swap_outer(a2, b0, a1);
    assert(x0 * a0 + x1 * a1 + x2 * a2 == 0);
    lemma_triple_product(a1, b2, a2, b1, b0);
    lemma_triple_product(a2, b0, a0, b2, b1);
    lemma_triple_product(a0, b1, a1, b0, b2);
    lemma_swap_inner(a1, b2, b0);
    lemma_swap_inner(a2, b1, b0);
    lemma_swap_inner(a0, b2, b1);
    assert(x0 * b0 + x1 * b1 + x2 * b2 == 0);
    lemma_cross_residue(
        c.0.raw as int,
        c.1.raw as int,
        c.2.raw as int,
        x0,
        x1,
        x2,
        e0,
        e1,
        e2,
        a0,
        a1,
        a2,
    );
    lemma_cross_residue(
        c.0.raw as int,
        c.1.raw as int,
        c.2.raw as int,
        x0,
        x1,
        x2,
        e0,
        e1,
        e2,
        b0,
        b1,
        b2,
    );
}

} // verus!
