//! Three-component vectors, used as points, directions and RGB colours.
use crate::fixed::descale;
use crate::fixed::isqrt;
use crate::fixed::lemma_isqrt;
use crate::fixed::isqrt_u128;
use crate::fixed::sat;
use crate::fixed::saturate;
use crate::fixed::wide_div;
use crate::fixed::wide_mul;
use crate::fixed::Fixed;
use crate::fixed::ONE_RAW;
use core::ops::Neg;
use vstd::prelude::*;
use vstd::std_specs::ops::AddSpecImpl;
use vstd::std_specs::ops::DivSpecImpl;
use vstd::std_specs::ops::MulSpecImpl;
use vstd::std_specs::ops::NegSpecImpl;
use vstd::std_specs::ops::SubSpecImpl;

verus! {

/// A point in space.
pub type Point3 = Vec3;

/// How many candidates a rejection sampler draws before it gives up.
pub const MAX_REJECTIONS: u32 = 1024;

/// Draws 32 bits from `rand::random`, the thread-local generator of the
/// `rand` crate.  Nothing is claimed of the value: every `u32` may come
/// back, and two draws are unrelated.  The generator stops the program
/// where the operating system cannot seed it.
#[verifier::external_body]
fn random_bits() -> (w: u32) {
    rand::random::<u32>()
}

/// `u` lies in `[0, 1)`.
pub open spec fn is_unit_sample(u: Fixed) -> bool {
    0 <= u.raw < ONE_RAW
}

/// The point of `[min, max)` that the unit sample `u` selects:
/// `min + (max - min) * u`.
pub open spec fn spec_range_at(min: Fixed, max: Fixed, u: Fixed) -> Fixed {
    min.spec_add(max.spec_sub(min).spec_mul(u))
}

/// `r` is a point of `[min, max)` that some unit sample selects.
pub open spec fn is_range_sample(min: Fixed, max: Fixed, r: Fixed) -> bool {
    exists|u: Fixed| is_unit_sample(u) && r == spec_range_at(min, max, u)
}

/// The number of `[0, 1)` whose fraction is the given bits.
pub fn unit_sample(bits: u32) -> (r: Fixed)
    ensures
        r.raw == bits,
        is_unit_sample(r),
{
    Fixed { raw: bits as i64 }
}

/// Returns a random number in `[0, 1)`: the drawn bits are its fraction.
pub fn random_f64() -> (r: Fixed)
    ensures
        is_unit_sample(r),
{
    unit_sample(random_bits())
}

/// Maps a unit sample into `[min, max)`.
#[inline]
#[verifier::when_used_as_spec(spec_range_at)]
pub fn range_at(min: Fixed, max: Fixed, u: Fixed) -> (r: Fixed)
    ensures
        r == spec_range_at(min, max, u),
{
    min + (max - min) * u
}

/// Returns a random number in `[min, max)`.
#[inline]
pub fn random_range(min: Fixed, max: Fixed) -> (r: Fixed)
    ensures
        is_range_sample(min, max, r),
{
    let u = random_f64();
    range_at(min, max, u)
}

/// A vector of three fixed-point components.
#[derive(Clone, Copy, PartialEq, Eq, Structural, Debug)]
pub struct Vec3(pub Fixed, pub Fixed, pub Fixed);

/// The sum of three raw products, rescaled to a raw value.
pub fn descale_sum(p0: i128, p1: i128, p2: i128) -> (r: i64)
    requires
        -0x4000_0000_0000_0000_0000_0000_0000_0000 <= p0 <= 0x4000_0000_0000_0000_0000_0000_0000_0000,
        -0x4000_0000_0000_0000_0000_0000_0000_0000 <= p1 <= 0x4000_0000_0000_0000_0000_0000_0000_0000,
        -0x4000_0000_0000_0000_0000_0000_0000_0000 <= p2 <= 0x4000_0000_0000_0000_0000_0000_0000_0000,
    ensures
        r == descale(p0 + p1 + p2),
{
    match p0.checked_add(p1) {
        Some(s01) => match s01.checked_add(p2) {
            Some(s) => {
                if s == i128::MIN {
                    i64::MIN
                } else {
                    saturate(wide_div(s, ONE_RAW as i128))
                }
            },
            None => {
                if p2 > 0 {
                    i64::MAX
                } else {
                    i64::MIN
                }
            },
        },
        None => {
            if p0 > 0 {
                i64::MAX
            } else {
                i64::MIN
            }
        },
    }
}

impl Vec3 {
    /// The exact dot product of the raw components, `2^64` times the dot
    /// product of the values.
    pub open spec fn dot_raw(self, rhs: Vec3) -> int {
        self.0.raw * rhs.0.raw + self.1.raw * rhs.1.raw + self.2.raw * rhs.2.raw
    }

    /// The component-wise sum.
    pub open spec fn spec_add(self, rhs: Vec3) -> Vec3 {
        Vec3(self.0.spec_add(rhs.0), self.1.spec_add(rhs.1), self.2.spec_add(rhs.2))
    }

    /// The vector with every component negated.
    pub open spec fn spec_neg(self) -> Vec3 {
        Vec3(self.0.spec_neg(), self.1.spec_neg(), self.2.spec_neg())
    }

    /// Subtraction is addition of the negated right-hand side.
    pub open spec fn spec_sub(self, rhs: Vec3) -> Vec3 {
        self.spec_add(rhs.spec_neg())
    }

    /// The component-wise product, which tints one colour by another.
    pub open spec fn spec_mul(self, rhs: Vec3) -> Vec3 {
        Vec3(self.0.spec_mul(rhs.0), self.1.spec_mul(rhs.1), self.2.spec_mul(rhs.2))
    }

    /// The vector with every component multiplied by `k`.
    pub open spec fn scale(self, k: Fixed) -> Vec3 {
        Vec3(self.0.spec_mul(k), self.1.spec_mul(k), self.2.spec_mul(k))
    }

    /// The vector with every component divided by `k`.
    pub open spec fn shrink(self, k: Fixed) -> Vec3 {
        Vec3(self.0.spec_div(k), self.1.spec_div(k), self.2.spec_div(k))
    }

    /// The dot product, rounded once.
    pub open spec fn spec_dot(&self, rhs: &Vec3) -> Fixed {
        Fixed { raw: descale(self.dot_raw(*rhs)) as i64 }
    }

    /// The cross product, each component rounded once.
    pub open spec fn spec_cross(&self, rhs: Vec3) -> Vec3 {
        Vec3(
            Fixed { raw: descale(self.1.raw * rhs.2.raw - self.2.raw * rhs.1.raw) as i64 },
            Fixed { raw: descale(self.2.raw * rhs.0.raw - self.0.raw * rhs.2.raw) as i64 },
            Fixed { raw: descale(self.0.raw * rhs.1.raw - self.1.raw * rhs.0.raw) as i64 },
        )
    }

    /// The squared length: the dot product of the vector with itself.
    pub open spec fn spec_length_squared(&self) -> Fixed {
        self.spec_dot(self)
    }

    /// The Euclidean length: the square root of the exact sum of the
    /// squared raw components, rounded down.  It is zero for the zero
    /// vector only.
    pub open spec fn spec_length(&self) -> Fixed {
        Fixed { raw: sat(isqrt(self.dot_raw(*self))) as i64 }
    }

    /// The vector divided by its length.
    pub open spec fn spec_unit_vector(&self) -> Vec3 {
        self.shrink(self.spec_length())
    }

    /// Every component is smaller than `10^-8` in absolute value.
    pub open spec fn spec_near_zero(&self) -> bool {
        &&& -ONE_RAW < self.0.raw * 100_000_000 < ONE_RAW
        &&& -ONE_RAW < self.1.raw * 100_000_000 < ONE_RAW
        &&& -ONE_RAW < self.2.raw * 100_000_000 < ONE_RAW
    }

    /// The mirror image of `v` about the plane with normal `n`:
    /// `v - 2 (v . n) n`.
    pub open spec fn spec_reflect(v: &Vec3, n: &Vec3) -> Vec3 {
        let dif = Fixed::from_int(2i32).spec_mul(v.spec_dot(n));
        v.spec_sub(n.scale(dif))
    }

    /// The direction of the unit vector `uv` after it crosses a surface
    /// with normal `n`, by Snell's law.  `etai_over_etat` is the ratio of
    /// the refractive index on the side of the incoming ray to that on the
    /// other side.  The part of the direction perpendicular to the normal
    /// is scaled by the ratio, and the part along the normal restores the
    /// unit length.
    pub open spec fn spec_refract(uv: &Vec3, n: &Vec3, etai_over_etat: Fixed) -> Vec3 {
        let c = uv.spec_neg().spec_dot(n);
        let cos_theta = if c.raw < ONE_RAW {
            c
        } else {
            Fixed::one()
        };
        let r_out_perp = uv.spec_add(n.scale(cos_theta)).scale(etai_over_etat);
        let k = Fixed::one().spec_sub(r_out_perp.spec_length_squared()).spec_abs();
        let r_out_parallel = n.scale(Fixed::from_int(-1i32).spec_mul(k.spec_sqrt()));
        r_out_perp.spec_add(r_out_parallel)
    }

    /// The test of the rejection samplers: the squared length is below
    /// one.
    pub open spec fn spec_is_accepted(&self) -> bool {
        self.spec_length_squared().raw < ONE_RAW
    }

    /// Every component is a sample of `[-1, 1)`: a candidate of the ball
    /// sampler.
    pub open spec fn in_cube(self) -> bool {
        &&& is_range_sample(Fixed::from_int(-1i32), Fixed::from_int(1i32), self.0)
        &&& is_range_sample(Fixed::from_int(-1i32), Fixed::from_int(1i32), self.1)
        &&& is_range_sample(Fixed::from_int(-1i32), Fixed::from_int(1i32), self.2)
    }

    /// The first two components are samples of `[-1, 1)` and the third is
    /// zero: a candidate of the disk sampler.
    pub open spec fn in_square(self) -> bool {
        &&& is_range_sample(Fixed::from_int(-1i32), Fixed::from_int(1i32), self.0)
        &&& is_range_sample(Fixed::from_int(-1i32), Fixed::from_int(1i32), self.1)
        &&& self.2.raw == 0
    }

    /// What a rejection sampler returns for the candidates that it drew,
    /// in the order drawn: the first that passes the test, or the centre
    /// where none does.
    pub open spec fn spec_first_in_unit_ball(candidates: Seq<Vec3>) -> Vec3
        decreases candidates.len(),
    {
        if candidates.len() == 0 {
            Vec3(Fixed::zero(), Fixed::zero(), Fixed::zero())
        } else if candidates[0].spec_is_accepted() {
            candidates[0]
        } else {
            Self::spec_first_in_unit_ball(candidates.skip(1))
        }
    }

    /// `candidates` is a run of draws as a rejection sampler makes it: it
    /// stops at the first candidate that passes the test, and gives up
    /// after `MAX_REJECTIONS` candidates that fail it.
    pub open spec fn is_rejection_run(candidates: Seq<Vec3>) -> bool {
        &&& candidates.len() <= MAX_REJECTIONS
        &&& forall|i: int|
            0 <= i < candidates.len() - 1 ==> !(#[trigger] candidates[i]).spec_is_accepted()
        &&& candidates.len() == MAX_REJECTIONS || (candidates.len() > 0
            && candidates.last().spec_is_accepted())
    }

    /// Every component is a sample of `[-1, 1)` and the squared length is
    /// below one: what a rejection sampler of the unit ball may return.
    pub open spec fn in_unit_ball(self) -> bool {
        &&& is_range_sample(Fixed::from_int(-1i32), Fixed::from_int(1i32), self.0)
        &&& is_range_sample(Fixed::from_int(-1i32), Fixed::from_int(1i32), self.1)
        &&& is_range_sample(Fixed::from_int(-1i32), Fixed::from_int(1i32), self.2)
        &&& self.spec_length_squared().raw < ONE_RAW
    }

    /// A point of the unit ball whose third component is zero.
    pub open spec fn in_unit_disk(self) -> bool {
        &&& is_range_sample(Fixed::from_int(-1i32), Fixed::from_int(1i32), self.0)
        &&& is_range_sample(Fixed::from_int(-1i32), Fixed::from_int(1i32), self.1)
        &&& self.2.raw == 0
        &&& self.spec_length_squared().raw < ONE_RAW
    }

    /// What `random_unit_vector` may return: a point of the unit ball
    /// divided by its length, or the first axis where that point has none.
    pub open spec fn on_unit_sphere(self) -> bool {
        exists|v: Vec3| #[trigger]
            v.in_unit_ball() && self == (if v.spec_length().raw > 0 {
                v.spec_unit_vector()
            } else {
                Vec3(Fixed::one(), Fixed::zero(), Fixed::zero())
            })
    }

    /// The vector is the zero vector, which has no direction.
    pub open spec fn spec_is_zero(&self) -> bool {
        self.0.raw == 0 && self.1.raw == 0 && self.2.raw == 0
    }

    /// Whether the vector is the zero vector, the only one without
    /// length.
    #[inline]
    #[verifier::when_used_as_spec(spec_is_zero)]
    pub fn is_zero(&self) -> (b: bool)
        ensures
            b == self.spec_is_zero(),
            b != (self.spec_length().raw > 0),
    {
        proof {
            self.lemma_length_positive();
            self.lemma_length_squared_nonnegative();
            lemma_isqrt(self.dot_raw(*self));
        }
        self.0.raw == 0 && self.1.raw == 0 && self.2.raw == 0
    }

    /// The vector with the given components.
    #[inline]
    pub fn new(e0: Fixed, e1: Fixed, e2: Fixed) -> (v: Vec3)
        ensures
            v == Vec3(e0, e1, e2),
    {
        Vec3(e0, e1, e2)
    }

    /// The mirror image of `v` about the plane with normal `n`.
    #[inline]
    #[verifier::when_used_as_spec(spec_reflect)]
    pub fn reflect(v: &Vec3, n: &Vec3) -> (r: Vec3)
        ensures
            r == Vec3::spec_reflect(v, n),
    {
        let dif = Fixed::from_int(2) * v.dot(n);
        *v - dif * (*n)
    }

    /// A vector whose components are independent samples of `[0, 1)`.
    #[inline]
    pub fn random() -> (v: Vec3)
        ensures
            is_unit_sample(v.0),
            is_unit_sample(v.1),
            is_unit_sample(v.2),
    {
        Vec3(random_f64(), random_f64(), random_f64())
    }

    /// A vector whose components are independent samples of `[min, max)`.
    #[inline]
    pub fn random_range(min: Fixed, max: Fixed) -> (v: Vec3)
        ensures
            is_range_sample(min, max, v.0),
            is_range_sample(min, max, v.1),
            is_range_sample(min, max, v.2),
    {
        Vec3(random_range(min, max), random_range(min, max), random_range(min, max))
    }

    /// Whether the vector passes the test of the rejection samplers.
    #[inline]
    #[verifier::when_used_as_spec(spec_is_accepted)]
    pub fn is_accepted(&self) -> (b: bool)
        ensures
            b == self.spec_is_accepted(),
    {
        self.length_squared() < Fixed::one()
    }

    /// What a rejection sampler returns for given candidates in place of
    /// drawn ones: the first whose squared length is below one, or the
    /// centre of the ball where there is none.
    pub fn first_in_unit_ball(candidates: &Vec<Vec3>) -> (v: Vec3)
        ensures
            v == Self::spec_first_in_unit_ball(candidates@),
    {
        let n = candidates.len();
        let mut i: usize = 0;
        proof {
            assert(candidates@.skip(0) == candidates@);
        }
        while i < n
            invariant
                i <= n,
                n == candidates@.len(),
                Self::spec_first_in_unit_ball(candidates@) == Self::spec_first_in_unit_ball(
                    candidates@.skip(i as int),
                ),
            decreases n - i,
        {
            proof {
                assert(candidates@.skip(i as int)[0] == candidates@[i as int]);
                assert(candidates@.skip(i as int).skip(1) == candidates@.skip(i + 1));
            }
            if candidates[i].is_accepted() {
                return candidates[i];
            }
            i = i + 1;
        }
        proof {
            assert(candidates@.skip(n as int).len() == 0);
        }
        Vec3(Fixed::zero(), Fixed::zero(), Fixed::zero())
    }

    /// A point inside the unit ball, by rejection: candidates are drawn from
    /// the cube `[-1, 1)^3`, each from fresh draws, until one has a squared
    /// length below one, and that one is returned.  After `MAX_REJECTIONS`
    /// candidates the centre of the ball is returned.
    #[inline]
    pub fn random_in_unit_sphere() -> (v: Vec3)
        ensures
            v.in_unit_ball(),
            exists|candidates: Seq<Vec3>|
                #![trigger Self::spec_first_in_unit_ball(candidates)]
                Self::spec_first_in_unit_ball(candidates) == v && Self::is_rejection_run(
                    candidates,
                ) && forall|i: int|
                    0 <= i < candidates.len() ==> (#[trigger] candidates[i]).in_cube(),
    {
        let mut left: u32 = MAX_REJECTIONS;
        let ghost mut drawn: Seq<Vec3> = Seq::empty();
        while left > 0
            invariant
                drawn.len() == MAX_REJECTIONS - left,
                forall|i: int|
                    0 <= i < drawn.len() ==> (#[trigger] drawn[i]).in_cube()
                        && !drawn[i].spec_is_accepted(),
            decreases left,
        {
            let x = Vec3::random_range(Fixed::from_int(-1), Fixed::from_int(1));
            if x.is_accepted() {
                proof {
                    lemma_first_after_rejected(drawn, seq![x]);
                    let run = drawn + seq![x];
                    assert(run.last() == x);
                    assert(Self::spec_first_in_unit_ball(run) == x);
                    assert(Self::is_rejection_run(run));
                }
                return x;
            }
            proof {
                drawn = drawn.push(x);
            }
            left = left - 1;
        }
        proof {
            lemma_centre_is_range_sample();
            lemma_first_after_rejected(drawn, Seq::empty());
            assert(drawn + Seq::<Vec3>::empty() == drawn);
            assert(Self::is_rejection_run(drawn));
        }
        Vec3(Fixed::zero(), Fixed::zero(), Fixed::zero())
    }

    /// A point inside the unit disk of the first two axes, by rejection as
    /// in `random_in_unit_sphere`: the candidates are drawn from the square
    /// `[-1, 1)^2` of the plane in which the third component is zero.
    #[inline]
    pub fn random_in_unit_disk() -> (v: Vec3)
        ensures
            v.in_unit_disk(),
            exists|candidates: Seq<Vec3>|
                #![trigger Self::spec_first_in_unit_ball(candidates)]
                Self::spec_first_in_unit_ball(candidates) == v && Self::is_rejection_run(
                    candidates,
                ) && forall|i: int|
                    0 <= i < candidates.len() ==> (#[trigger] candidates[i]).in_square(),
    {
        let mut left: u32 = MAX_REJECTIONS;
        let ghost mut drawn: Seq<Vec3> = Seq::empty();
        while left > 0
            invariant
                drawn.len() == MAX_REJECTIONS - left,
                forall|i: int|
                    0 <= i < drawn.len() ==> (#[trigger] drawn[i]).in_square()
                        && !drawn[i].spec_is_accepted(),
            decreases left,
        {
            let x = Vec3(
                random_range(Fixed::from_int(-1), Fixed::from_int(1)),
                random_range(Fixed::from_int(-1), Fixed::from_int(1)),
                Fixed::zero(),
            );
            if x.is_accepted() {
                proof {
                    lemma_first_after_rejected(drawn, seq![x]);
                    let run = drawn + seq![x];
                    assert(run.last() == x);
                    assert(Self::spec_first_in_unit_ball(run) == x);
                    assert(Self::is_rejection_run(run));
                }
                return x;
            }
            proof {
                drawn = drawn.push(x);
            }
            left = left - 1;
        }
        proof {
            lemma_centre_is_range_sample();
            lemma_first_after_rejected(drawn, Seq::empty());
            assert(drawn + Seq::<Vec3>::empty() == drawn);
            assert(Self::is_rejection_run(drawn));
        }
        Vec3(Fixed::zero(), Fixed::zero(), Fixed::zero())
    }

    /// A vector whose components are independent samples of `[0, 1)`.
    #[inline]
    pub fn random_in_hemishpere() -> (v: Vec3)
        ensures
            is_unit_sample(v.0),
            is_unit_sample(v.1),
            is_unit_sample(v.2),
    {
        Vec3::random()
    }

    /// A random direction: a point of the unit ball, normalised.
    #[inline]
    pub fn random_unit_vector() -> (r: Vec3)
        ensures
            r.on_unit_sphere(),
    {
        let v = Vec3::random_in_unit_sphere();
        if v.length() > Fixed::zero() {
            v.unit_vector()
        } else {
            Vec3(Fixed::one(), Fixed::zero(), Fixed::zero())
        }
    }

    /// Whether every component is smaller than `10^-8` in absolute value.
    #[inline]
    #[verifier::when_used_as_spec(spec_near_zero)]
    pub fn near_zero(&self) -> (b: bool)
        ensures
            b == self.spec_near_zero(),
    {
        let s: i64 = 43;
        -s < self.0.raw && self.0.raw < s && -s < self.1.raw && self.1.raw < s && -s < self.2.raw
            && self.2.raw < s
    }

    /// The direction of `uv` after refraction at a surface with normal `n`,
    /// by Snell's law.
    #[verifier::when_used_as_spec(spec_refract)]
    pub fn refract(uv: &Vec3, n: &Vec3, etai_over_etat: Fixed) -> (r: Vec3)
        ensures
            r == Vec3::spec_refract(uv, n, etai_over_etat),
    {
        let cos_theta = {
            let c = uv.neg().dot(n);
            if c < Fixed::one() {
                c
            } else {
                Fixed::one()
            }
        };
        let r_out_perp: Vec3 = etai_over_etat * (*uv + cos_theta * (*n));
        let k = (Fixed::one() - r_out_perp.length_squared()).abs();
        proof {
            assert(k.raw >= 0);
        }
        let r_out_parallel: Vec3 = (Fixed::from_int(-1) * k.sqrt()) * (*n);
        r_out_perp + r_out_parallel
    }

    /// The Euclidean length, rounded down.
    #[inline]
    #[verifier::when_used_as_spec(spec_length)]
    pub fn length(&self) -> (r: Fixed)
        ensures
            r == self.spec_length(),
    {
        let q0: i128 = wide_mul(self.0.raw, self.0.raw);
        let q1: i128 = wide_mul(self.1.raw, self.1.raw);
        let q2: i128 = wide_mul(self.2.raw, self.2.raw);
        proof {
            assert(q0 >= 0 && q1 >= 0 && q2 >= 0) by (nonlinear_arith)
                requires
                    q0 == self.0.raw * self.0.raw,
                    q1 == self.1.raw * self.1.raw,
                    q2 == self.2.raw * self.2.raw,
            ;
        }
        let sum: u128 = q0 as u128 + q1 as u128 + q2 as u128;
        let root: u64 = isqrt_u128(sum);
        if root > i64::MAX as u64 {
            Fixed { raw: i64::MAX }
        } else {
            Fixed { raw: root as i64 }
        }
    }

    /// The squared length.
    #[inline]
    #[verifier::when_used_as_spec(spec_length_squared)]
    pub fn length_squared(&self) -> (r: Fixed)
        ensures
            r == self.spec_length_squared(),
    {
        self.dot(self)
    }

    /// The first component.
    #[inline]
    pub fn x(&self) -> (r: Fixed)
        ensures
            r == self.0,
    {
        self.0
    }

    /// The second component.
    #[inline]
    pub fn y(&self) -> (r: Fixed)
        ensures
            r == self.1,
    {
        self.1
    }

    /// The third component.
    #[inline]
    pub fn z(&self) -> (r: Fixed)
        ensures
            r == self.2,
    {
        self.2
    }

    /// The dot product, rounded once.
    #[inline]
    #[verifier::when_used_as_spec(spec_dot)]
    pub fn dot(&self, rhs: &Vec3) -> (r: Fixed)
        ensures
            r == self.spec_dot(rhs),
    {
        let p0: i128 = wide_mul(self.0.raw, rhs.0.raw);
        let p1: i128 = wide_mul(self.1.raw, rhs.1.raw);
        let p2: i128 = wide_mul(self.2.raw, rhs.2.raw);
        Fixed { raw: descale_sum(p0, p1, p2) }
    }

    /// The cross product, each component rounded once.
    #[inline]
    #[verifier::when_used_as_spec(spec_cross)]
    pub fn cross(&self, rhs: Vec3) -> (r: Vec3)
        ensures
            r == self.spec_cross(rhs),
    {
        Vec3(
            cross_term(self.1, rhs.2, self.2, rhs.1),
            cross_term(self.2, rhs.0, self.0, rhs.2),
            cross_term(self.0, rhs.1, self.1, rhs.0),
        )
    }

    /// The vector divided by its length, which must not be zero.
    #[inline]
    #[verifier::when_used_as_spec(spec_unit_vector)]
    pub fn unit_vector(&self) -> (r: Vec3)
        requires
            self.spec_length().raw > 0,
        ensures
            r == self.spec_unit_vector(),
    {
        *self / self.length()
    }

    /// Adds `rhs` to the vector in place.
    pub fn add_assign(&mut self, rhs: Vec3)
        ensures
            *final(self) == old(self).spec_add(rhs),
    {
        self.0 = self.0 + rhs.0;
        self.1 = self.1 + rhs.1;
        self.2 = self.2 + rhs.2;
    }
}

/// Candidates that fail the test do not count: the first accepted of a
/// sequence that begins with rejected candidates is the first accepted of
/// what follows them.
pub proof fn lemma_first_after_rejected(rejected: Seq<Vec3>, rest: Seq<Vec3>)
    requires
        forall|i: int| 0 <= i < rejected.len() ==> !(#[trigger] rejected[i]).spec_is_accepted(),
    ensures
        Vec3::spec_first_in_unit_ball(rejected + rest) == Vec3::spec_first_in_unit_ball(rest),
    decreases rejected.len(),
{
    if rejected.len() == 0 {
        assert(rejected + rest == rest);
    } else {
        let all = rejected + rest;
        assert(all[0] == rejected[0]);
        assert(all.skip(1) == rejected.skip(1) + rest);
        assert forall|i: int| 0 <= i < rejected.skip(1).len() implies !(
        #[trigger] rejected.skip(1)[i]).spec_is_accepted() by {
            assert(rejected.skip(1)[i] == rejected[i + 1]);
        }
        lemma_first_after_rejected(rejected.skip(1), rest);
    }
}

/// Zero is the sample of `[-1, 1)` that the unit sample one half selects,
/// so the centre of the unit ball is one of its samples, and the first
/// axis is the sample of the unit sphere that the centre gives.
pub proof fn lemma_centre_is_range_sample()
    ensures
        is_range_sample(Fixed::from_int(-1i32), Fixed::from_int(1i32), Fixed::zero()),
        Vec3(Fixed::zero(), Fixed::zero(), Fixed::zero()).spec_length_squared().raw == 0,
        Vec3(Fixed::zero(), Fixed::zero(), Fixed::zero()).in_unit_ball(),
        Vec3(Fixed::zero(), Fixed::zero(), Fixed::zero()).in_unit_disk(),
        Vec3(Fixed::one(), Fixed::zero(), Fixed::zero()).on_unit_sphere(),
{
    let half = Fixed { raw: 0x8000_0000 };
    assert(is_unit_sample(half));
    assert(spec_range_at(Fixed::from_int(-1i32), Fixed::from_int(1i32), half) == Fixed::zero());
    let centre = Vec3(Fixed::zero(), Fixed::zero(), Fixed::zero());
    assert(centre.dot_raw(centre) == 0) by (nonlinear_arith)
        requires
            centre.0.raw == 0,
            centre.1.raw == 0,
            centre.2.raw == 0,
    ;
    assert(centre.in_unit_ball());
    centre.lemma_length_positive();
}

impl Vec3 {
    /// The length is zero for the zero vector and for no other.
    pub proof fn lemma_length_positive(self)
        ensures
            self.spec_length().raw > 0 <==> !self.spec_is_zero(),
            self.spec_is_zero() <==> self == Vec3(Fixed::zero(), Fixed::zero(), Fixed::zero()),
    {
        let n = self.dot_raw(self);
        assert(n >= 0 && (n == 0 <==> (self.0.raw == 0 && self.1.raw == 0 && self.2.raw == 0)))
            by (nonlinear_arith)
            requires
                n == self.0.raw * self.0.raw + self.1.raw * self.1.raw + self.2.raw * self.2.raw,
        ;
        lemma_isqrt(n);
        let root = isqrt(n);
        if n == 0 {
            crate::fixed::lemma_isqrt_is(0, 0);
        } else {
            if root == 0 {
                assert((root + 1) * (root + 1) == 1) by (nonlinear_arith)
                    requires
                        root == 0,
                ;
            }
            assert(root > 0);
        }
        assert(self.spec_length().raw == sat(root));
    }

    /// A squared length is never negative.
    pub proof fn lemma_length_squared_nonnegative(self)
        ensures
            self.dot_raw(self) >= 0,
            self.spec_length_squared().raw >= 0,
    {
        assert(self.dot_raw(self) >= 0) by (nonlinear_arith)
            requires
                self.dot_raw(self) == self.0.raw * self.0.raw + self.1.raw * self.1.raw
                    + self.2.raw * self.2.raw,
        ;
        vstd::arithmetic::div_mod::lemma_div_pos_is_pos(self.dot_raw(self), ONE_RAW as int);
    }
}

/// One component of a cross product: `a * b - c * d`, rounded once.
fn cross_term(a: Fixed, b: Fixed, c: Fixed, d: Fixed) -> (r: Fixed)
    ensures
        r.raw == descale(a.raw * b.raw - c.raw * d.raw),
{
    let p: i128 = wide_mul(a.raw, b.raw);
    let q: i128 = wide_mul(c.raw, d.raw);
    match p.checked_sub(q) {
        Some(diff) => {
            if diff == i128::MIN {
                Fixed { raw: i64::MIN }
            } else {
                Fixed { raw: saturate(wide_div(diff, ONE_RAW as i128)) }
            }
        },
        None => {
            if p > q {
                Fixed { raw: i64::MAX }
            } else {
                Fixed { raw: i64::MIN }
            }
        },
    }
}

impl core::ops::Add for Vec3 {
    type Output = Vec3;

    #[inline]
    fn add(self, rhs: Vec3) -> (r: Vec3)
        ensures
            r == self.spec_add(rhs),
    {
        Vec3(self.0 + rhs.0, self.1 + rhs.1, self.2 + rhs.2)
    }
}

impl AddSpecImpl for Vec3 {
    open spec fn obeys_add_spec() -> bool {
        true
    }

    open spec fn add_req(self, rhs: Vec3) -> bool {
        true
    }

    open spec fn add_spec(self, rhs: Vec3) -> Vec3 {
        self.spec_add(rhs)
    }
}

impl core::ops::Neg for Vec3 {
    type Output = Vec3;

    #[inline]
    fn neg(self) -> (r: Vec3)
        ensures
            r == self.spec_neg(),
    {
        Vec3(self.0.neg(), self.1.neg(), self.2.neg())
    }
}

impl NegSpecImpl for Vec3 {
    open spec fn obeys_neg_spec() -> bool {
        true
    }

    open spec fn neg_req(self) -> bool {
        true
    }

    open spec fn neg_spec(self) -> Vec3 {
        self.spec_neg()
    }
}

impl core::ops::Sub for Vec3 {
    type Output = Vec3;

    #[inline]
    fn sub(self, rhs: Vec3) -> (r: Vec3)
        ensures
            r == self.spec_sub(rhs),
    {
        self + rhs.neg()
    }
}

impl SubSpecImpl for Vec3 {
    open spec fn obeys_sub_spec() -> bool {
        true
    }

    open spec fn sub_req(self, rhs: Vec3) -> bool {
        true
    }

    open spec fn sub_spec(self, rhs: Vec3) -> Vec3 {
        self.spec_sub(rhs)
    }
}

impl core::ops::Mul<Fixed> for Vec3 {
    type Output = Vec3;

    #[inline]
    fn mul(self, rhs: Fixed) -> (r: Vec3)
        ensures
            r == self.scale(rhs),
    {
        Vec3(self.0 * rhs, self.1 * rhs, self.2 * rhs)
    }
}

impl MulSpecImpl<Fixed> for Vec3 {
    open spec fn obeys_mul_spec() -> bool {
        true
    }

    open spec fn mul_req(self, rhs: Fixed) -> bool {
        true
    }

    open spec fn mul_spec(self, rhs: Fixed) -> Vec3 {
        self.scale(rhs)
    }
}

impl core::ops::Div<Fixed> for Vec3 {
    type Output = Vec3;

    #[inline]
    fn div(self, rhs: Fixed) -> (r: Vec3)
        ensures
            r == self.shrink(rhs),
    {
        Vec3(self.0 / rhs, self.1 / rhs, self.2 / rhs)
    }
}

impl DivSpecImpl<Fixed> for Vec3 {
    open spec fn obeys_div_spec() -> bool {
        true
    }

    open spec fn div_req(self, rhs: Fixed) -> bool {
        true
    }

    open spec fn div_spec(self, rhs: Fixed) -> Vec3 {
        self.shrink(rhs)
    }
}

impl Default for Vec3 {
    /// White: every component is one.
    fn default() -> (v: Vec3)
        ensures
            v == Vec3(Fixed::one(), Fixed::one(), Fixed::one()),
    {
        Vec3(Fixed::one(), Fixed::one(), Fixed::one())
    }
}

impl core::ops::Mul<Vec3> for Fixed {
    type Output = Vec3;

    #[inline]
    fn mul(self, rhs: Vec3) -> (r: Vec3)
        ensures
            r == rhs.scale(self),
    {
        rhs * self
    }
}

impl MulSpecImpl<Vec3> for Fixed {
    open spec fn obeys_mul_spec() -> bool {
        true
    }

    open spec fn mul_req(self, rhs: Vec3) -> bool {
        true
    }

    open spec fn mul_spec(self, rhs: Vec3) -> Vec3 {
        rhs.scale(self)
    }
}

impl core::ops::Mul<Vec3> for Vec3 {
    type Output = Vec3;

    #[inline]
    fn mul(self, rhs: Vec3) -> (r: Vec3)
        ensures
            r == self.spec_mul(rhs),
    {
        Vec3(self.0 * rhs.0, self.1 * rhs.1, self.2 * rhs.2)
    }
}

impl MulSpecImpl<Vec3> for Vec3 {
    open spec fn obeys_mul_spec() -> bool {
        true
    }

    open spec fn mul_req(self, rhs: Vec3) -> bool {
        true
    }

    open spec fn mul_spec(self, rhs: Vec3) -> Vec3 {
        self.spec_mul(rhs)
    }
}

} // verus!
