//! Fixed-point scalars.
//!
//! Every quantity of the tracer (coordinates, distances, colour channels) is
//! a signed binary fixed-point number with 32 fractional bits, held in an
//! `i64`.  Arithmetic never wraps and never panics: a result that leaves
//! the representable range sticks to the nearest bound, and a quotient or
//! product that falls between two representable values is rounded toward
//! zero.  The specification functions in this module state each operation
//! over unbounded integers.
use vstd::prelude::*;
use core::ops::Neg;
use vstd::std_specs::ops::AddSpecImpl;
use vstd::std_specs::ops::DivSpecImpl;
use vstd::std_specs::ops::MulSpecImpl;
use vstd::std_specs::ops::NegSpecImpl;
use vstd::std_specs::ops::SubSpecImpl;

verus! {

/// The raw representation of the value one.
pub const ONE_RAW: i64 = 0x1_0000_0000;

/// The number of terms after the first that the sine and the cosine sum.
pub const SERIES_TERMS: u32 = 10;

/// Clamps an unbounded integer into the range of `i64`.
pub open spec fn sat(x: int) -> int {
    if x < i64::MIN {
        i64::MIN as int
    } else if x > i64::MAX {
        i64::MAX as int
    } else {
        x
    }
}

/// The quotient `n / d` rounded toward zero, for `d != 0`.
pub open spec fn tdiv(n: int, d: int) -> int {
    if d > 0 {
        if n >= 0 {
            n / d
        } else {
            -((-n) / d)
        }
    } else {
        if n >= 0 {
            -(n / (-d))
        } else {
            (-n) / (-d)
        }
    }
}

/// Drops the 32 extra fractional bits that a product of two raw values
/// carries, rounding toward zero and saturating.
pub open spec fn descale(x: int) -> int {
    sat(tdiv(x, ONE_RAW as int))
}

/// `r` is the integer square root of `n`: the largest `r` with `r * r <= n`.
pub open spec fn is_isqrt(n: int, r: int) -> bool {
    0 <= r && r * r <= n < (r + 1) * (r + 1)
}

/// The integer square root of `n`, for `n >= 0`.
pub open spec fn isqrt(n: int) -> int {
    choose|r: int| is_isqrt(n, r)
}

/// Two integer square roots of the same number are equal.
pub proof fn lemma_isqrt_unique(n: int, r1: int, r2: int)
    requires
        is_isqrt(n, r1),
        is_isqrt(n, r2),
    ensures
        r1 == r2,
{
    if r1 < r2 {
        assert((r1 + 1) * (r1 + 1) <= r2 * r2) by (nonlinear_arith)
            requires
                0 <= r1,
                r1 + 1 <= r2,
        ;
    } else if r2 < r1 {
        assert((r2 + 1) * (r2 + 1) <= r1 * r1) by (nonlinear_arith)
            requires
                0 <= r2,
                r2 + 1 <= r1,
        ;
    }
}

/// Every non-negative integer has an integer square root, and `isqrt` is it.
pub proof fn lemma_isqrt(n: int)
    requires
        0 <= n,
    ensures
        is_isqrt(n, isqrt(n)),
    decreases n,
{
    if n == 0 {
        assert(is_isqrt(0, 0));
    } else {
        lemma_isqrt(n - 1);
        let r = isqrt(n - 1);
        if (r + 1) * (r + 1) <= n {
            assert((r + 1) * (r + 1) == r * r + 2 * r + 1) by (nonlinear_arith);
            assert((r + 2) * (r + 2) == r * r + 4 * r + 4) by (nonlinear_arith);
            assert(is_isqrt(n, r + 1));
        } else {
            assert(is_isqrt(n, r));
        }
    }
}

/// A number that passes the test of `is_isqrt` is the integer square root.
pub proof fn lemma_isqrt_is(n: int, r: int)
    requires
        is_isqrt(n, r),
    ensures
        isqrt(n) == r,
{
    lemma_isqrt_unique(n, r, isqrt(n));
}

/// Rounding toward zero keeps the order of the numerators, for a positive
/// divisor.
pub proof fn lemma_tdiv_monotone(n1: int, n2: int, d: int)
    requires
        n1 <= n2,
        d > 0,
    ensures
        tdiv(n1, d) <= tdiv(n2, d),
{
    if n1 >= 0 {
        vstd::arithmetic::div_mod::lemma_div_is_ordered(n1, n2, d);
    } else if n2 >= 0 {
        vstd::arithmetic::div_mod::lemma_div_pos_is_pos(-n1, d);
        vstd::arithmetic::div_mod::lemma_div_pos_is_pos(n2, d);
    } else {
        vstd::arithmetic::div_mod::lemma_div_is_ordered(-n2, -n1, d);
    }
}

/// The absolute value of an integer.
pub open spec fn magnitude(x: int) -> int {
    if x < 0 {
        -x
    } else {
        x
    }
}

/// Squaring keeps the order of non-negative numbers.
pub proof fn lemma_square_monotone(a: int, b: int)
    requires
        0 <= a <= b,
    ensures
        a * a <= b * b,
        a < b ==> a * a < b * b,
{
    assert(a * a <= b * b) by (nonlinear_arith)
        requires
            0 <= a <= b,
    ;
    if a < b {
        assert(a * a < b * b) by (nonlinear_arith)
            requires
                0 <= a < b,
        ;
    }
}

/// A number whose square is below the square of `b + 1` is at most `b`
/// in magnitude.
pub proof fn lemma_magnitude_below_root(x: int, b: int)
    requires
        0 <= b,
        x * x < (b + 1) * (b + 1),
    ensures
        -b <= x <= b,
{
    if x > b {
        lemma_square_monotone(b + 1, x);
    }
    if x < -b {
        lemma_square_monotone(b + 1, -x);
        assert((-x) * (-x) == x * x) by (nonlinear_arith);
    }
}

/// Rescaling a product that is small enough not to saturate rounds toward
/// zero by less than one unit.
pub proof fn lemma_descale(x: int)
    requires
        -0x8000_0000_0000_0000_0000_0000 < x < 0x8000_0000_0000_0000_0000_0000,
    ensures
        descale(x) == tdiv(x, ONE_RAW as int),
        -ONE_RAW < x - descale(x) * ONE_RAW < ONE_RAW,
        magnitude(descale(x)) * ONE_RAW <= magnitude(x),
        x >= 0 ==> descale(x) >= 0,
        x <= 0 ==> descale(x) <= 0,
{
    let m = magnitude(x);
    vstd::arithmetic::div_mod::lemma_fundamental_div_mod(m, ONE_RAW as int);
    vstd::arithmetic::div_mod::lemma_mod_bound(m, ONE_RAW as int);
}

/// Rounding toward zero moves a number by less than one unit, whatever
/// its size.
pub proof fn lemma_tdiv_error(x: int)
    ensures
        -ONE_RAW < x - tdiv(x, ONE_RAW as int) * ONE_RAW < ONE_RAW,
{
    let m = magnitude(x);
    vstd::arithmetic::div_mod::lemma_fundamental_div_mod(m, ONE_RAW as int);
    vstd::arithmetic::div_mod::lemma_mod_bound(m, ONE_RAW as int);
}

/// Rescaling brings two numbers no farther apart than they were, but for
/// two units of rounding, also where it saturates.
pub proof fn lemma_descale_lipschitz(x: int, y: int)
    ensures
        magnitude(descale(x) - descale(y)) * ONE_RAW < magnitude(x - y) + 2 * ONE_RAW,
{
    lemma_tdiv_error(x);
    lemma_tdiv_error(y);
    let a = tdiv(x, ONE_RAW as int);
    let b = tdiv(y, ONE_RAW as int);
    assert(magnitude(sat(a) - sat(b)) <= magnitude(a - b));
}

/// The product of two bounded numbers is bounded by the product of the
/// bounds.
pub proof fn lemma_product_bound(a: int, b: int, bound_a: int, bound_b: int)
    requires
        -bound_a <= a <= bound_a,
        -bound_b <= b <= bound_b,
    ensures
        -(bound_a * bound_b) <= a * b <= bound_a * bound_b,
{
    assert(-(bound_a * bound_b) <= a * b <= bound_a * bound_b) by (nonlinear_arith)
        requires
            -bound_a <= a <= bound_a,
            -bound_b <= b <= bound_b,
    ;
}

/// A multiple of the divisor divides exactly.
pub proof fn lemma_exact_quotient(q: int, d: int)
    requires
        d > 0,
    ensures
        tdiv(q * d, d) == q,
{
    if q >= 0 {
        assert(q * d >= 0) by (nonlinear_arith)
            requires
                q >= 0,
                d > 0,
        ;
        vstd::arithmetic::div_mod::lemma_div_by_multiple(q, d);
    } else {
        assert(q * d < 0) by (nonlinear_arith)
            requires
                q < 0,
                d > 0,
        ;
        assert(-(q * d) == (-q) * d) by (nonlinear_arith);
        vstd::arithmetic::div_mod::lemma_div_by_multiple(-q, d);
    }
}

/// The product of two `i64` values lies within `2^126` of zero.
pub proof fn lemma_raw_product_bound(a: int, b: int)
    requires
        i64::MIN <= a <= i64::MAX,
        i64::MIN <= b <= i64::MAX,
    ensures
        -0x4000_0000_0000_0000_0000_0000_0000_0000 <= a * b
            <= 0x4000_0000_0000_0000_0000_0000_0000_0000,
{
    assert(-0x4000_0000_0000_0000_0000_0000_0000_0000 <= a * b
        <= 0x4000_0000_0000_0000_0000_0000_0000_0000) by (nonlinear_arith)
        requires
            -0x8000_0000_0000_0000 <= a <= 0x7fff_ffff_ffff_ffff,
            -0x8000_0000_0000_0000 <= b <= 0x7fff_ffff_ffff_ffff,
    ;
}

/// The exact product of two raw values.
pub fn wide_mul(a: i64, b: i64) -> (p: i128)
    ensures
        p == a * b,
        -0x4000_0000_0000_0000_0000_0000_0000_0000 <= p <= 0x4000_0000_0000_0000_0000_0000_0000_0000,
{
    proof {
        lemma_raw_product_bound(a as int, b as int);
    }
    (a as i128) * (b as i128)
}

/// Clamps a wide integer into the range of `i64`.
pub fn saturate(x: i128) -> (r: i64)
    ensures
        r == sat(x as int),
{
    if x < i64::MIN as i128 {
        i64::MIN
    } else if x > i64::MAX as i128 {
        i64::MAX
    } else {
        x as i64
    }
}

/// The quotient of two wide integers, rounded toward zero.
pub fn wide_div(n: i128, d: i128) -> (q: i128)
    requires
        d != 0,
        i128::MIN < n,
        i128::MIN < d,
    ensures
        q == tdiv(n as int, d as int),
{
    if d > 0 {
        if n >= 0 {
            n / d
        } else {
            -((-n) / d)
        }
    } else {
        if n >= 0 {
            -(n / (-d))
        } else {
            (-n) / (-d)
        }
    }
}

/// The integer square root of a 128-bit number, found by bisection.
pub fn isqrt_u128(n: u128) -> (r: u64)
    ensures
        r == isqrt(n as int),
{
    let mut lo: u128 = 0;
    let mut hi: u128 = 0x1_0000_0000_0000_0000;
    assert(0 * 0 == 0) by (nonlinear_arith);
    while hi - lo > 1
        invariant
            lo < hi <= 0x1_0000_0000_0000_0000,
            lo * lo <= n,
            hi < 0x1_0000_0000_0000_0000 ==> n < hi * hi,
        decreases hi - lo,
    {
        let mid: u128 = lo + (hi - lo) / 2;
        assert(mid * mid <= 0xffff_ffff_ffff_ffff * 0xffff_ffff_ffff_ffff) by (nonlinear_arith)
            requires
                0 <= mid <= 0xffff_ffff_ffff_ffff,
        ;
        if mid * mid <= n {
            lo = mid;
        } else {
            hi = mid;
        }
    }
    proof {
        assert((lo + 1) * (lo + 1) > n) by {
            if hi == 0x1_0000_0000_0000_0000 {
                assert(0x1_0000_0000_0000_0000 * 0x1_0000_0000_0000_0000 > u128::MAX) by (nonlinear_arith);
            }
        }
        lemma_isqrt_is(n as int, lo as int);
    }
    lo as u64
}

/// A fixed-point number: the value `raw / 2^32`.
#[derive(Clone, Copy, PartialEq, Eq, Structural, Debug)]
pub struct Fixed {
    pub raw: i64,
}

impl Fixed {
    /// The sum, saturated.
    pub open spec fn spec_add(self, rhs: Fixed) -> Fixed {
        Fixed { raw: sat(self.raw + rhs.raw) as i64 }
    }

    /// The negation; the most negative value maps to the most positive one.
    pub open spec fn spec_neg(self) -> Fixed {
        Fixed { raw: sat(-self.raw) as i64 }
    }

    /// The difference: the sum with the negated right-hand side.
    pub open spec fn spec_sub(self, rhs: Fixed) -> Fixed {
        self.spec_add(rhs.spec_neg())
    }

    /// The product, rounded toward zero and saturated.
    pub open spec fn spec_mul(self, rhs: Fixed) -> Fixed {
        Fixed { raw: descale(self.raw * rhs.raw) as i64 }
    }

    /// The quotient, rounded toward zero and saturated.  A non-zero value
    /// divided by zero gives the bound of its sign; zero by zero gives zero.
    pub open spec fn spec_div(self, rhs: Fixed) -> Fixed {
        if rhs.raw == 0 {
            if self.raw > 0 {
                Fixed { raw: i64::MAX }
            } else if self.raw < 0 {
                Fixed { raw: i64::MIN }
            } else {
                Fixed { raw: 0 }
            }
        } else {
            Fixed { raw: sat(tdiv(self.raw * ONE_RAW, rhs.raw as int)) as i64 }
        }
    }

    /// The absolute value, saturated.
    pub open spec fn spec_abs(self) -> Fixed {
        if self.raw < 0 {
            self.spec_neg()
        } else {
            self
        }
    }

    /// The square root of a non-negative value, rounded down.
    pub open spec fn spec_sqrt(self) -> Fixed {
        Fixed { raw: isqrt(self.raw * ONE_RAW) as i64 }
    }

    /// The value clamped into `[lo, hi]`: `lo` below it, `hi` above it.
    pub open spec fn spec_clamp(self, lo: Fixed, hi: Fixed) -> Fixed {
        if self.raw < lo.raw {
            lo
        } else if self.raw > hi.raw {
            hi
        } else {
            self
        }
    }

    /// The `n`-th power by repeated multiplication.
    pub open spec fn spec_powi(self, n: nat) -> Fixed
        decreases n,
    {
        if n == 0 {
            Fixed::one()
        } else {
            self.spec_powi((n - 1) as nat).spec_mul(self)
        }
    }

    /// The value zero.
    pub open spec fn spec_zero() -> Fixed {
        Fixed { raw: 0 }
    }

    /// The value one.
    pub open spec fn spec_one() -> Fixed {
        Fixed { raw: ONE_RAW }
    }

    /// The whole number `n`.
    pub open spec fn spec_from_int(n: i32) -> Fixed {
        Fixed { raw: (n * ONE_RAW) as i64 }
    }

    /// The sum of an alternating power series, continued for `left` more
    /// terms from the partial sum `sum` and its last term `term`: each term
    /// is the one before it times `-x2 / (den (den + 1))`, and `den` grows
    /// by two from term to term.
    pub open spec fn spec_series(sum: Fixed, term: Fixed, x2: Fixed, den: i32, left: nat) -> Fixed
        decreases left,
    {
        if left == 0 {
            sum
        } else {
            let next = term.spec_mul(x2).spec_div(
                Fixed::from_int((den * (den + 1)) as i32),
            ).spec_neg();
            Fixed::spec_series(sum.spec_add(next), next, x2, (den + 2) as i32, (left - 1) as nat)
        }
    }

    /// The sine of an angle in radians: the terms of its Taylor series up
    /// to the power 21.
    pub open spec fn spec_sin(self) -> Fixed {
        Fixed::spec_series(self, self, self.spec_mul(self), 2, SERIES_TERMS as nat)
    }

    /// The cosine of an angle in radians: the terms of its Taylor series
    /// up to the power 20.
    pub open spec fn spec_cos(self) -> Fixed {
        Fixed::spec_series(Fixed::one(), Fixed::one(), self.spec_mul(self), 1, SERIES_TERMS as nat)
    }

    /// The tangent of an angle in radians: the sine divided by the cosine.
    pub open spec fn spec_tan(self) -> Fixed {
        self.spec_sin().spec_div(self.spec_cos())
    }

    /// The ratio `num / den` of two integers as a fixed-point number.
    pub open spec fn spec_ratio(num: i64, den: i64) -> Fixed {
        (Fixed { raw: num }).spec_div(Fixed { raw: den })
    }

    /// The scalar with the given raw representation.
    pub fn from_raw(raw: i64) -> (r: Fixed)
        ensures
            r.raw == raw,
    {
        Fixed { raw }
    }

    /// The raw representation: the value times `2^32`.
    pub fn raw(&self) -> (r: i64)
        ensures
            r == self.raw,
    {
        self.raw
    }

    /// The whole number `n`.
    #[verifier::when_used_as_spec(spec_from_int)]
    pub fn from_int(n: i32) -> (r: Fixed)
        ensures
            r == Fixed::spec_from_int(n),
    {
        Fixed { raw: (n as i64) * ONE_RAW }
    }

    /// The ratio `num / den`, rounded toward zero.
    #[verifier::when_used_as_spec(spec_ratio)]
    pub fn ratio(num: i64, den: i64) -> (r: Fixed)
        ensures
            r == Fixed::spec_ratio(num, den),
    {
        Fixed { raw: num } / Fixed { raw: den }
    }

    /// The value zero.
    #[verifier::when_used_as_spec(spec_zero)]
    pub fn zero() -> (r: Fixed)
        ensures
            r == Fixed::spec_zero(),
    {
        Fixed { raw: 0 }
    }

    /// The value one.
    #[verifier::when_used_as_spec(spec_one)]
    pub fn one() -> (r: Fixed)
        ensures
            r == Fixed::spec_one(),
    {
        Fixed { raw: ONE_RAW }
    }

    /// The absolute value, saturated.
    pub fn abs(self) -> (r: Fixed)
        ensures
            r == self.spec_abs(),
    {
        if self < Fixed::zero() {
            self.neg()
        } else {
            self
        }
    }

    /// The square root of a non-negative value, rounded down.
    pub fn sqrt(self) -> (r: Fixed)
        requires
            self.raw >= 0,
        ensures
            r == self.spec_sqrt(),
    {
        let n: i128 = wide_mul(self.raw, ONE_RAW);
        let root: u64 = isqrt_u128(n as u128);
        proof {
            self.lemma_sqrt_range();
        }
        Fixed { raw: root as i64 }
    }

    /// Continues an alternating power series for `left` more terms.
    fn series(sum: Fixed, term: Fixed, x2: Fixed, den: i32, left: u32) -> (r: Fixed)
        requires
            1 <= den,
            den + 2 * left <= 1000,
        ensures
            r == Fixed::spec_series(sum, term, x2, den, left as nat),
    {
        let mut sum = sum;
        let mut term = term;
        let mut den = den;
        let mut left = left;
        let ghost all = Fixed::spec_series(sum, term, x2, den, left as nat);
        while left > 0
            invariant
                1 <= den,
                den + 2 * left <= 1000,
                Fixed::spec_series(sum, term, x2, den, left as nat) == all,
            decreases left,
        {
            assert(den * (den + 1) <= 1000 * 1001) by (nonlinear_arith)
                requires
                    1 <= den <= 1000,
            ;
            term = (term * x2 / Fixed::from_int(den * (den + 1))).neg();
            sum = sum + term;
            den = den + 2;
            left = left - 1;
        }
        sum
    }

    /// The sine of an angle in radians.
    #[verifier::when_used_as_spec(spec_sin)]
    pub fn sin(self) -> (r: Fixed)
        ensures
            r == self.spec_sin(),
    {
        Fixed::series(self, self, self * self, 2, SERIES_TERMS)
    }

    /// The cosine of an angle in radians.
    #[verifier::when_used_as_spec(spec_cos)]
    pub fn cos(self) -> (r: Fixed)
        ensures
            r == self.spec_cos(),
    {
        Fixed::series(Fixed::one(), Fixed::one(), self * self, 1, SERIES_TERMS)
    }

    /// The tangent of an angle in radians.
    #[verifier::when_used_as_spec(spec_tan)]
    pub fn tan(self) -> (r: Fixed)
        ensures
            r == self.spec_tan(),
    {
        self.sin() / self.cos()
    }

    /// The value clamped into `[lo, hi]`.
    pub fn clamp(self, lo: Fixed, hi: Fixed) -> (r: Fixed)
        ensures
            r == self.spec_clamp(lo, hi),
    {
        if self < lo {
            lo
        } else if self > hi {
            hi
        } else {
            self
        }
    }

    /// The `n`-th power by repeated multiplication.
    pub fn powi(self, n: u32) -> (r: Fixed)
        ensures
            r == self.spec_powi(n as nat),
    {
        let mut acc = Fixed::one();
        let mut i: u32 = 0;
        while i < n
            invariant
                i <= n,
                acc == self.spec_powi(i as nat),
            decreases n - i,
        {
            acc = acc * self;
            i = i + 1;
        }
        acc
    }
}

impl Fixed {
    /// The square root of a non-negative value is the integer square root
    /// of its raw value shifted by the fractional bits, and lies in
    /// `[0, 2^16)`.
    pub proof fn lemma_sqrt_range(self)
        requires
            self.raw >= 0,
        ensures
            self.spec_sqrt().raw == isqrt(self.raw * ONE_RAW),
            is_isqrt(self.raw * ONE_RAW, self.spec_sqrt().raw as int),
            0 <= self.spec_sqrt().raw < 0x1_0000_0000_0000,
    {
        let n = self.raw * ONE_RAW;
        lemma_isqrt(n);
        let root = isqrt(n);
        if root >= 0x1_0000_0000_0000 {
            assert(root * root >= 0x1_0000_0000_0000 * 0x1_0000_0000_0000) by (nonlinear_arith)
                requires
                    root >= 0x1_0000_0000_0000,
            ;
        }
    }

    /// Division by a non-negative value keeps the order of the dividends.
    pub proof fn lemma_div_monotone(a: Fixed, b: Fixed, d: Fixed)
        requires
            a.raw <= b.raw,
            d.raw >= 0,
        ensures
            a.spec_div(d).raw <= b.spec_div(d).raw,
    {
        if d.raw > 0 {
            assert(a.raw * ONE_RAW <= b.raw * ONE_RAW) by (nonlinear_arith)
                requires
                    a.raw <= b.raw,
            ;
            lemma_tdiv_monotone(a.raw * ONE_RAW, b.raw * ONE_RAW, d.raw as int);
        }
    }
}

impl core::ops::Add for Fixed {
    type Output = Fixed;

    fn add(self, rhs: Fixed) -> (r: Fixed)
        ensures
            r == self.spec_add(rhs),
    {
        Fixed { raw: saturate(self.raw as i128 + rhs.raw as i128) }
    }
}

impl AddSpecImpl for Fixed {
    open spec fn obeys_add_spec() -> bool {
        true
    }

    open spec fn add_req(self, rhs: Fixed) -> bool {
        true
    }

    open spec fn add_spec(self, rhs: Fixed) -> Fixed {
        self.spec_add(rhs)
    }
}

impl core::ops::Neg for Fixed {
    type Output = Fixed;

    fn neg(self) -> (r: Fixed)
        ensures
            r == self.spec_neg(),
    {
        Fixed { raw: saturate(-(self.raw as i128)) }
    }
}

impl NegSpecImpl for Fixed {
    open spec fn obeys_neg_spec() -> bool {
        true
    }

    open spec fn neg_req(self) -> bool {
        true
    }

    open spec fn neg_spec(self) -> Fixed {
        self.spec_neg()
    }
}

impl core::ops::Sub for Fixed {
    type Output = Fixed;

    fn sub(self, rhs: Fixed) -> (r: Fixed)
        ensures
            r == self.spec_sub(rhs),
    {
        self + rhs.neg()
    }
}

impl SubSpecImpl for Fixed {
    open spec fn obeys_sub_spec() -> bool {
        true
    }

    open spec fn sub_req(self, rhs: Fixed) -> bool {
        true
    }

    open spec fn sub_spec(self, rhs: Fixed) -> Fixed {
        self.spec_sub(rhs)
    }
}

impl core::ops::Mul for Fixed {
    type Output = Fixed;

    fn mul(self, rhs: Fixed) -> (r: Fixed)
        ensures
            r == self.spec_mul(rhs),
    {
        let p: i128 = wide_mul(self.raw, rhs.raw);
        Fixed { raw: saturate(wide_div(p, ONE_RAW as i128)) }
    }
}

impl MulSpecImpl for Fixed {
    open spec fn obeys_mul_spec() -> bool {
        true
    }

    open spec fn mul_req(self, rhs: Fixed) -> bool {
        true
    }

    open spec fn mul_spec(self, rhs: Fixed) -> Fixed {
        self.spec_mul(rhs)
    }
}

impl core::ops::Div for Fixed {
    type Output = Fixed;

    fn div(self, rhs: Fixed) -> (r: Fixed)
        ensures
            r == self.spec_div(rhs),
    {
        if rhs.raw == 0 {
            if self.raw > 0 {
                Fixed { raw: i64::MAX }
            } else if self.raw < 0 {
                Fixed { raw: i64::MIN }
            } else {
                Fixed { raw: 0 }
            }
        } else {
            let n: i128 = wide_mul(self.raw, ONE_RAW);
            Fixed { raw: saturate(wide_div(n, rhs.raw as i128)) }
        }
    }
}

impl DivSpecImpl for Fixed {
    open spec fn obeys_div_spec() -> bool {
        true
    }

    open spec fn div_req(self, rhs: Fixed) -> bool {
        true
    }

    open spec fn div_spec(self, rhs: Fixed) -> Fixed {
        self.spec_div(rhs)
    }
}

} // verus!
