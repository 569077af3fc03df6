//! Materials: how a surface scatters the light that reaches it.
//!
//! Each material has a `scatter_with` that takes the random sample as an
//! argument and is an exact function of its inputs, and a `scatter` that
//! draws the sample and hands it on.
use crate::accuracy::is_unit;
use crate::accuracy::refract_tolerance;
use crate::color::Color;
use crate::fixed::magnitude;
use crate::fixed::Fixed;
use crate::fixed::ONE_RAW;
use crate::hittable::HitRecord;
use crate::ray::Ray;
use crate::vec3::is_unit_sample;
use crate::vec3::random_f64;
use crate::vec3::Vec3;
use core::ops::Neg;
use vstd::prelude::*;
use vstd::std_specs::convert::FromSpecImpl;

verus! {

/// A diffuse surface.
#[derive(Clone, Copy, PartialEq, Eq, Structural, Debug)]
pub struct Lambertian {
    pub albedo: Color,
}

impl Lambertian {
    /// The direction in which light leaves a point with normal `normal`
    /// for the unit sample `unit`: their sum, or the normal alone where the
    /// sum nearly vanishes.
    pub open spec fn spec_direction(normal: Vec3, unit: Vec3) -> Vec3 {
        let scatter_dir = normal.spec_add(unit);
        if scatter_dir.spec_near_zero() {
            normal
        } else {
            scatter_dir
        }
    }

    /// What `scatter` may leave in `attenuation` and return: the albedo,
    /// and a ray from the point of the hit in the direction that some
    /// sample of the unit sphere gives.
    pub open spec fn scatters(&self, rec: &HitRecord, attenuation: Color, out: Option<Ray>) -> bool {
        &&& attenuation == self.albedo
        &&& exists|unit: Vec3| #[trigger]
            unit.on_unit_sphere() && out == Some(
                Ray { orig: rec.p, dir: Self::spec_direction(rec.normal, unit) },
            )
    }

    /// A diffuse material of the given colour.
    pub fn new(albedo: Color) -> (m: Lambertian)
        ensures
            m.albedo == albedo,
    {
        Lambertian { albedo }
    }

    /// The scattered ray for a given sample of the unit sphere.
    pub fn scatter_with(&self, rec: &HitRecord, unit: Vec3) -> (ray: Ray)
        ensures
            ray == (Ray { orig: rec.p, dir: Self::spec_direction(rec.normal, unit) }),
            rec.normal.spec_length().raw > 0 ==> ray.dir.spec_length().raw > 0,
    {
        let mut scatter_dir = rec.normal + unit;
        if scatter_dir.near_zero() {
            scatter_dir = rec.normal;
        }
        proof {
            scatter_dir.lemma_length_positive();
        }
        Ray::new(rec.p, scatter_dir)
    }

    /// Scatters diffusely.  The ray is never absorbed, its colour is tinted
    /// by the albedo, and the scattered ray always has a direction.
    pub fn scatter(&self, ray_in: &Ray, rec: &HitRecord, attenuation: &mut Color) -> (out: Option<
        Ray,
    >)
        ensures
            self.scatters(rec, *final(attenuation), out),
            out is Some,
            out->0.orig == rec.p,
            out->0.dir.spec_length().raw > 0,
    {
        let unit = Vec3::random_unit_vector();
        *attenuation = self.albedo;
        let ray = self.scatter_with(rec, unit);
        proof {
            Self::lemma_direction_not_zero(rec.normal, unit);
        }
        Some(ray)
    }

    /// Light always leaves in some direction: for a sample of the unit
    /// sphere the direction is not the zero vector, whatever the normal.
    pub proof fn lemma_direction_not_zero(normal: Vec3, unit: Vec3)
        requires
            unit.on_unit_sphere(),
        ensures
            Self::spec_direction(normal, unit).spec_length().raw > 0,
    {
        let v = choose|v: Vec3| #[trigger]
            v.in_unit_ball() && unit == (if v.spec_length().raw > 0 {
                v.spec_unit_vector()
            } else {
                Vec3(Fixed::one(), Fixed::zero(), Fixed::zero())
            });
        if v.spec_length().raw > 0 {
            crate::accuracy::lemma_unit_vector_not_small(v);
        }
        assert(!unit.spec_near_zero());
        let direction = Self::spec_direction(normal, unit);
        direction.lemma_length_positive();
        normal.lemma_length_positive();
        if normal.spec_is_zero() {
            assert(normal.spec_add(unit) == unit);
        }
    }
}

impl Default for Lambertian {
    fn default() -> (m: Lambertian)
        ensures
            m.albedo == Vec3(Fixed::one(), Fixed::one(), Fixed::one()),
    {
        Lambertian { albedo: Vec3::default() }
    }
}

/// A mirror, blurred by `fuzz`.
#[derive(Clone, Copy, PartialEq, Eq, Structural, Debug)]
pub struct Metal {
    albedo: Color,
    fuzz: Fixed,
}

impl Metal {
    #[verifier::type_invariant]
    spec fn fuzz_at_most_one(self) -> bool {
        self.fuzz.raw <= ONE_RAW
    }

    /// The colour of the metal.
    pub closed spec fn spec_albedo(&self) -> Color {
        self.albedo
    }

    /// The radius of the blur, at most one.
    pub closed spec fn spec_fuzz(&self) -> Fixed {
        self.fuzz
    }

    /// The outcome of scattering for a given sample of the unit ball: the
    /// ray is mirrored about the normal and pushed off by the sample scaled
    /// by the fuzz; a ray that would leave into the surface is absorbed.
    pub open spec fn spec_scatter_with(&self, ray_in: &Ray, rec: &HitRecord, sample: Vec3) -> Option<
        Ray,
    > {
        let reflected = Vec3::spec_reflect(&ray_in.dir.spec_unit_vector(), &rec.normal);
        let scattered = Ray {
            orig: rec.p,
            dir: reflected.spec_add(sample.scale(self.spec_fuzz())),
        };
        if scattered.dir.spec_dot(&rec.normal).raw > 0 {
            Some(scattered)
        } else {
            None
        }
    }

    /// What `scatter` may leave in `attenuation` and return: the albedo,
    /// and the outcome for some sample of the unit ball.
    pub open spec fn scatters(
        &self,
        ray_in: &Ray,
        rec: &HitRecord,
        attenuation: Color,
        out: Option<Ray>,
    ) -> bool {
        &&& attenuation == self.spec_albedo()
        &&& exists|sample: Vec3| #[trigger]
            sample.in_unit_ball() && out == self.spec_scatter_with(ray_in, rec, sample)
    }

    /// A metal of the given colour.  A fuzz above one is taken as one.
    pub fn new(albedo: Color, fuzz: Fixed) -> (m: Metal)
        ensures
            m.spec_albedo() == albedo,
            m.spec_fuzz() == (if fuzz.raw < ONE_RAW {
                fuzz
            } else {
                Fixed::one()
            }),
    {
        if fuzz < Fixed::one() {
            Metal { albedo, fuzz }
        } else {
            Metal { albedo, fuzz: Fixed::one() }
        }
    }

    /// The colour of the metal.
    #[verifier::when_used_as_spec(spec_albedo)]
    pub fn albedo(&self) -> (c: Color)
        ensures
            c == self.spec_albedo(),
    {
        self.albedo
    }

    /// The radius of the blur, at most one.
    #[verifier::when_used_as_spec(spec_fuzz)]
    pub fn fuzz(&self) -> (f: Fixed)
        ensures
            f == self.spec_fuzz(),
            f.raw <= ONE_RAW,
    {
        proof {
            use_type_invariant(self);
        }
        self.fuzz
    }

    /// The outcome of scattering for a given sample of the unit ball.
    #[verifier::when_used_as_spec(spec_scatter_with)]
    pub fn scatter_with(&self, ray_in: &Ray, rec: &HitRecord, sample: Vec3) -> (out: Option<Ray>)
        requires
            ray_in.dir.spec_length().raw > 0,
        ensures
            out == self.spec_scatter_with(ray_in, rec, sample),
    {
        let reflected = Vec3::reflect(&ray_in.dir().unit_vector(), &rec.normal);
        let scattered = Ray::new(rec.p, reflected + self.fuzz * sample);
        if scattered.dir().dot(&rec.normal) > Fixed::zero() {
            Some(scattered)
        } else {
            None
        }
    }

    /// Reflects with a random blur.  A ray that comes back leaves on the
    /// side of the normal and so has a direction.
    pub fn scatter(&self, ray_in: &Ray, rec: &HitRecord, attenuation: &mut Color) -> (out: Option<
        Ray,
    >)
        requires
            ray_in.dir.spec_length().raw > 0,
        ensures
            self.scatters(ray_in, rec, *final(attenuation), out),
            out matches Some(ray) ==> ray.orig == rec.p && ray.dir.spec_dot(&rec.normal).raw > 0
                && ray.dir.spec_length().raw > 0,
    {
        let sample = Vec3::random_in_unit_sphere();
        *attenuation = self.albedo;
        let out = self.scatter_with(ray_in, rec, sample);
        proof {
            if let Some(ray) = out {
                ray.dir.lemma_length_positive();
                assert(!ray.dir.is_zero()) by {
                    if ray.dir.is_zero() {
                        assert(ray.dir.dot_raw(rec.normal) == 0) by (nonlinear_arith)
                            requires
                                ray.dir.0.raw == 0,
                                ray.dir.1.raw == 0,
                                ray.dir.2.raw == 0,
                                ray.dir.dot_raw(rec.normal) == ray.dir.0.raw * rec.normal.0.raw
                                    + ray.dir.1.raw * rec.normal.1.raw + ray.dir.2.raw
                                    * rec.normal.2.raw,
                        ;
                    }
                }
            }
        }
        out
    }
}

impl Metal {
    /// A metal without fuzz is a mirror: whatever the sample, the ray
    /// leaves in the direction of the reflection, and is absorbed only
    /// where that points into the surface.
    pub proof fn lemma_mirror(&self, ray_in: &Ray, rec: &HitRecord, sample: Vec3)
        requires
            self.spec_fuzz() == Fixed::zero(),
        ensures
            ({
                let reflected = Vec3::spec_reflect(&ray_in.dir.spec_unit_vector(), &rec.normal);
                self.spec_scatter_with(ray_in, rec, sample) == (if reflected.spec_dot(
                    &rec.normal,
                ).raw > 0 {
                    Some(Ray { orig: rec.p, dir: reflected })
                } else {
                    None
                })
            }),
    {
        let reflected = Vec3::spec_reflect(&ray_in.dir.spec_unit_vector(), &rec.normal);
        let push = sample.scale(self.spec_fuzz());
        assert(sample.0.raw * 0 == 0 && sample.1.raw * 0 == 0 && sample.2.raw * 0 == 0)
            by (nonlinear_arith);
        assert(push == Vec3(Fixed::zero(), Fixed::zero(), Fixed::zero()));
        assert(reflected.spec_add(push) == reflected);
    }
}

impl Default for Metal {
    fn default() -> (m: Metal)
        ensures
            m.spec_albedo() == Vec3(Fixed::one(), Fixed::one(), Fixed::one()),
            m.spec_fuzz() == Fixed::zero(),
    {
        Metal { albedo: Vec3::default(), fuzz: Fixed::zero() }
    }
}

/// A clear refracting medium such as glass.
#[derive(Clone, Copy, PartialEq, Eq, Structural, Debug)]
pub struct Dielectric {
    ir: Fixed,
}

impl Dielectric {
    /// The index of refraction.
    pub closed spec fn spec_ir(&self) -> Fixed {
        self.ir
    }

    /// Schlick's approximation of the share of light that a boundary with
    /// index ratio `ref_idx` reflects at the angle with cosine `cosine`:
    /// `r0 + (1 - r0) (1 - cosine)^5` with `r0 = ((1 - n) / (1 + n))^2`.
    pub open spec fn spec_reflectance(cosine: Fixed, ref_idx: Fixed) -> Fixed {
        let q = Fixed::one().spec_sub(ref_idx).spec_div(Fixed::one().spec_add(ref_idx));
        let r0 = q.spec_mul(q);
        r0.spec_add(
            Fixed::one().spec_sub(r0).spec_mul(Fixed::one().spec_sub(cosine).spec_powi(5)),
        )
    }

    /// The ratio of the refractive indices that a ray meets: into the
    /// medium on the front face, out of it on the back.
    pub open spec fn spec_refraction_ratio(&self, rec: &HitRecord) -> Fixed {
        if rec.front_face {
            Fixed::one().spec_div(self.spec_ir())
        } else {
            self.spec_ir()
        }
    }

    /// The cosine of the angle between the reversed unit direction and the
    /// normal, kept within `[-1, 1]`.
    pub open spec fn spec_cos_theta(unit_dir: Vec3, normal: Vec3) -> Fixed {
        unit_dir.spec_neg().spec_dot(&normal).spec_clamp(
            Fixed::from_int(-1i32),
            Fixed::from_int(1i32),
        )
    }

    /// Whether the ray is reflected: always where Snell's law has no
    /// solution, and else where the sample falls below the reflectance.
    pub open spec fn spec_reflects(&self, ray_in: &Ray, rec: &HitRecord, sample: Fixed) -> bool {
        let ratio = self.spec_refraction_ratio(rec);
        let cos_theta = Self::spec_cos_theta(ray_in.dir.spec_unit_vector(), rec.normal);
        let sin_theta = Fixed::one().spec_sub(cos_theta.spec_mul(cos_theta)).spec_sqrt();
        ratio.spec_mul(sin_theta).raw > ONE_RAW || sample.raw < Self::spec_reflectance(
            cos_theta,
            ratio,
        ).raw
    }

    /// The scattered ray for a given unit sample.
    pub open spec fn spec_scatter_with(&self, ray_in: &Ray, rec: &HitRecord, sample: Fixed) -> Ray {
        let unit_dir = ray_in.dir.spec_unit_vector();
        let direction = if self.spec_reflects(ray_in, rec, sample) {
            Vec3::spec_reflect(&unit_dir, &rec.normal)
        } else {
            Vec3::spec_refract(&unit_dir, &rec.normal, self.spec_refraction_ratio(rec))
        };
        Ray { orig: rec.p, dir: direction }
    }

    /// What `scatter` may leave in `attenuation` and return: white, and the
    /// ray for some unit sample.
    pub open spec fn scatters(
        &self,
        ray_in: &Ray,
        rec: &HitRecord,
        attenuation: Color,
        out: Option<Ray>,
    ) -> bool {
        &&& attenuation == Vec3(Fixed::one(), Fixed::one(), Fixed::one())
        &&& exists|sample: Fixed| #[trigger]
            is_unit_sample(sample) && out == Some(self.spec_scatter_with(ray_in, rec, sample))
    }

    /// A medium with the given index of refraction.
    pub fn new(ir: Fixed) -> (m: Dielectric)
        ensures
            m.spec_ir() == ir,
    {
        Dielectric { ir }
    }

    /// The index of refraction.
    #[verifier::when_used_as_spec(spec_ir)]
    pub fn ir(&self) -> (r: Fixed)
        ensures
            r == self.spec_ir(),
    {
        self.ir
    }

    /// Schlick's approximation of the reflectance.
    #[inline]
    #[verifier::when_used_as_spec(spec_reflectance)]
    pub fn reflectance(cosine: Fixed, ref_idx: Fixed) -> (r: Fixed)
        ensures
            r == Self::spec_reflectance(cosine, ref_idx),
    {
        let mut r0 = (Fixed::one() - ref_idx) / (Fixed::one() + ref_idx);
        r0 = r0 * r0;
        r0 + (Fixed::one() - r0) * (Fixed::one() - cosine).powi(5)
    }

    /// The scattered ray for a given unit sample.
    #[verifier::when_used_as_spec(spec_scatter_with)]
    pub fn scatter_with(&self, ray_in: &Ray, rec: &HitRecord, sample: Fixed) -> (ray: Ray)
        requires
            ray_in.dir.spec_length().raw > 0,
        ensures
            ray == self.spec_scatter_with(ray_in, rec, sample),
    {
        let refraction_ratio = if rec.front_face {
            Fixed::one() / self.ir
        } else {
            self.ir
        };

        let unit_dir = ray_in.dir().unit_vector();
        let cos_theta = unit_dir.neg().dot(&rec.normal).clamp(
            Fixed::from_int(-1),
            Fixed::from_int(1),
        );
        proof {
            lemma_square_at_most_one(cos_theta);
        }
        let sin_theta = (Fixed::one() - cos_theta * cos_theta).sqrt();

        let cannot_refract = refraction_ratio * sin_theta > Fixed::one();
        let direction = if cannot_refract || sample < Dielectric::reflectance(
            cos_theta,
            refraction_ratio,
        ) {
            Vec3::reflect(&unit_dir, &rec.normal)
        } else {
            Vec3::refract(&unit_dir, &rec.normal, refraction_ratio)
        };

        Ray::new(rec.p, direction)
    }

    /// Reflects or refracts, at random in the proportion of the
    /// reflectance.  Glass absorbs nothing and does not tint.
    pub fn scatter(&self, ray_in: &Ray, rec: &HitRecord, attenuation: &mut Color) -> (out: Option<
        Ray,
    >)
        requires
            ray_in.dir.spec_length().raw > 0,
        ensures
            self.scatters(ray_in, rec, *final(attenuation), out),
            out matches Some(ray) && ray.orig == rec.p,
    {
        *attenuation = Vec3(Fixed::one(), Fixed::one(), Fixed::one());
        let sample = random_f64();
        Some(self.scatter_with(ray_in, rec, sample))
    }
}

impl Dielectric {
    /// A medium with the index of its surroundings is clear.  Where the
    /// index is one, the ratio of the indices is one on both faces, no ray
    /// is reflected for want of a refracted one, the reflectance at an
    /// angle with cosine `c` is `(1 - c)^5`, and a ray that is not
    /// reflected goes on in its direction: no component of the unit
    /// direction moves by more than `refract_tolerance`, whatever the
    /// angle.  The direction of the ray is to be at least half a unit
    /// long, and the normal a unit vector that faces the ray.
    pub proof fn lemma_index_one(&self, ray_in: &Ray, rec: &HitRecord, sample: Fixed)
        requires
            self.spec_ir() == Fixed::one(),
            ONE_RAW / 2 <= ray_in.dir.spec_length().raw < i64::MAX,
            is_unit(rec.normal),
            ray_in.dir.spec_unit_vector().spec_neg().spec_dot(&rec.normal).raw >= 0,
        ensures
            self.spec_refraction_ratio(rec) == Fixed::one(),
            self.spec_reflects(ray_in, rec, sample) == (sample.raw < Fixed::one().spec_sub(
                Self::spec_cos_theta(ray_in.dir.spec_unit_vector(), rec.normal),
            ).spec_powi(5).raw),
            !self.spec_reflects(ray_in, rec, sample) ==> ({
                let out = self.spec_scatter_with(ray_in, rec, sample);
                let unit_dir = ray_in.dir.spec_unit_vector();
                &&& out.orig == rec.p
                &&& magnitude(out.dir.0.raw - unit_dir.0.raw) <= refract_tolerance()
                &&& magnitude(out.dir.1.raw - unit_dir.1.raw) <= refract_tolerance()
                &&& magnitude(out.dir.2.raw - unit_dir.2.raw) <= refract_tolerance()
            }),
    {
        let one = Fixed::one();
        let unit_dir = ray_in.dir.spec_unit_vector();
        crate::fixed::lemma_exact_quotient(ONE_RAW as int, ONE_RAW as int);
        assert(one.spec_div(one) == one);
        let ratio = self.spec_refraction_ratio(rec);
        assert(ratio == one);
        // No ray is reflected for want of a refracted one.
        let cos_theta = Self::spec_cos_theta(unit_dir, rec.normal);
        lemma_square_at_most_one(cos_theta);
        let rest = one.spec_sub(cos_theta.spec_mul(cos_theta));
        assert(0 <= rest.raw <= ONE_RAW);
        rest.lemma_sqrt_range();
        let sin_theta = rest.spec_sqrt();
        assert(sin_theta.raw <= ONE_RAW) by {
            if sin_theta.raw > ONE_RAW {
                crate::fixed::lemma_square_monotone(ONE_RAW + 1, sin_theta.raw as int);
                assert((ONE_RAW + 1) * (ONE_RAW + 1) > ONE_RAW * ONE_RAW) by (nonlinear_arith);
                assert(rest.raw * ONE_RAW <= ONE_RAW * ONE_RAW) by (nonlinear_arith)
                    requires
                        rest.raw <= ONE_RAW,
                ;
            }
        }
        assert(ratio.spec_mul(sin_theta) == sin_theta) by {
            assert(ONE_RAW * sin_theta.raw == sin_theta.raw * ONE_RAW) by (nonlinear_arith);
            crate::fixed::lemma_exact_quotient(sin_theta.raw as int, ONE_RAW as int);
        }
        // The reflectance.
        let power = one.spec_sub(cos_theta).spec_powi(5);
        let q = one.spec_sub(one).spec_div(one.spec_add(one));
        assert(q == Fixed::zero()) by {
            assert(0 * ONE_RAW == 0) by (nonlinear_arith);
        }
        assert(q.spec_mul(q) == Fixed::zero()) by {
            assert(0int * 0int == 0) by (nonlinear_arith);
        }
        assert(one.spec_sub(Fixed::zero()) == one);
        assert(one.spec_mul(power) == power) by {
            assert(ONE_RAW * power.raw == power.raw * ONE_RAW) by (nonlinear_arith);
            crate::fixed::lemma_exact_quotient(power.raw as int, ONE_RAW as int);
        }
        assert(Fixed::zero().spec_add(power) == power);
        assert(Self::spec_reflectance(cos_theta, ratio) == power);
        // The refracted ray.
        crate::accuracy::lemma_unit_vector_is_unit(ray_in.dir);
        crate::accuracy::lemma_refract_straight(unit_dir, rec.normal);
    }
}

/// The square of a value of `[-1, 1]` is at most one.
pub proof fn lemma_square_at_most_one(x: Fixed)
    requires
        -ONE_RAW <= x.raw <= ONE_RAW,
    ensures
        0 <= x.spec_mul(x).raw <= ONE_RAW,
{
    assert(0 <= x.raw * x.raw <= ONE_RAW * ONE_RAW) by (nonlinear_arith)
        requires
            -ONE_RAW <= x.raw <= ONE_RAW,
    ;
    vstd::arithmetic::div_mod::lemma_div_is_ordered(
        x.raw * x.raw,
        ONE_RAW * ONE_RAW,
        ONE_RAW as int,
    );
    vstd::arithmetic::div_mod::lemma_div_pos_is_pos(x.raw * x.raw, ONE_RAW as int);
}

/// The random numbers that one scattering may use: each material reads the
/// one that it needs.
#[derive(Clone, Copy, PartialEq, Eq, Structural, Debug)]
pub struct ScatterSample {
    /// A sample of the unit sphere, for a diffuse surface.
    pub direction: Vec3,
    /// A sample of the unit ball, for the blur of a metal.
    pub offset: Vec3,
    /// A sample of `[0, 1)`, for the choice that a dielectric makes.
    pub fraction: Fixed,
}

impl ScatterSample {
    /// Each part is a value that its sampler may return.
    pub open spec fn valid(self) -> bool {
        &&& self.direction.on_unit_sphere()
        &&& self.offset.in_unit_ball()
        &&& is_unit_sample(self.fraction)
    }

    /// The sample whose direction is the first axis, whose offset is the
    /// centre of the ball and whose fraction is zero.
    pub open spec fn spec_plain() -> ScatterSample {
        ScatterSample {
            direction: Vec3(Fixed::one(), Fixed::zero(), Fixed::zero()),
            offset: Vec3(Fixed::zero(), Fixed::zero(), Fixed::zero()),
            fraction: Fixed::zero(),
        }
    }

    /// The plain sample is valid.
    pub proof fn lemma_plain_valid()
        ensures
            Self::spec_plain().valid(),
    {
        crate::vec3::lemma_centre_is_range_sample();
    }

    /// The sample whose direction is the first axis, whose offset is the
    /// centre of the ball and whose fraction is zero.
    #[verifier::when_used_as_spec(spec_plain)]
    pub fn plain() -> (s: ScatterSample)
        ensures
            s == Self::spec_plain(),
    {
        ScatterSample {
            direction: Vec3(Fixed::one(), Fixed::zero(), Fixed::zero()),
            offset: Vec3(Fixed::zero(), Fixed::zero(), Fixed::zero()),
            fraction: Fixed::zero(),
        }
    }

    /// Draws every part from its sampler.
    pub fn random() -> (s: ScatterSample)
        ensures
            s.valid(),
    {
        ScatterSample {
            direction: Vec3::random_unit_vector(),
            offset: Vec3::random_in_unit_sphere(),
            fraction: random_f64(),
        }
    }
}

/// The material of a surface.
#[derive(Clone, Copy, PartialEq, Eq, Structural, Debug)]
pub enum Material {
    Lambertian(Lambertian),
    Metal(Metal),
    Dielectric(Dielectric),
}

impl Material {
    /// The factor by which the material tints the light that it scatters.
    pub open spec fn spec_attenuation(&self) -> Color {
        match self {
            Material::Lambertian(m) => m.albedo,
            Material::Metal(m) => m.spec_albedo(),
            Material::Dielectric(_) => Vec3(Fixed::one(), Fixed::one(), Fixed::one()),
        }
    }

    /// The scattered ray for a given sample, or `None` where the ray is
    /// absorbed.
    pub open spec fn spec_scatter_with(
        &self,
        ray_in: &Ray,
        rec: &HitRecord,
        sample: &ScatterSample,
    ) -> Option<Ray> {
        match self {
            Material::Lambertian(m) => Some(
                Ray { orig: rec.p, dir: Lambertian::spec_direction(rec.normal, sample.direction) },
            ),
            Material::Metal(m) => m.spec_scatter_with(ray_in, rec, sample.offset),
            Material::Dielectric(m) => Some(m.spec_scatter_with(ray_in, rec, sample.fraction)),
        }
    }

    /// What `scatter` may leave in `attenuation` and return: the tint of
    /// the material, and the outcome for some valid sample.
    pub open spec fn scatters(
        &self,
        ray_in: &Ray,
        rec: &HitRecord,
        attenuation: Color,
        out: Option<Ray>,
    ) -> bool {
        &&& attenuation == self.spec_attenuation()
        &&& exists|sample: ScatterSample| #[trigger]
            sample.valid() && out == self.spec_scatter_with(ray_in, rec, &sample)
    }

    /// The factor by which the material tints the light that it scatters.
    #[verifier::when_used_as_spec(spec_attenuation)]
    pub fn attenuation(&self) -> (c: Color)
        ensures
            c == self.spec_attenuation(),
    {
        match self {
            Material::Lambertian(m) => m.albedo,
            Material::Metal(m) => m.albedo(),
            Material::Dielectric(_) => Vec3(Fixed::one(), Fixed::one(), Fixed::one()),
        }
    }

    /// Scatters the incoming ray with the given sample in place of a
    /// random one.
    #[verifier::when_used_as_spec(spec_scatter_with)]
    pub fn scatter_with(&self, ray_in: &Ray, rec: &HitRecord, sample: &ScatterSample) -> (out:
        Option<Ray>)
        requires
            ray_in.dir.spec_length().raw > 0,
        ensures
            out == self.spec_scatter_with(ray_in, rec, sample),
    {
        match self {
            Material::Lambertian(m) => Some(m.scatter_with(rec, sample.direction)),
            Material::Metal(m) => m.scatter_with(ray_in, rec, sample.offset),
            Material::Dielectric(m) => Some(m.scatter_with(ray_in, rec, sample.fraction)),
        }
    }

    /// Scatters the incoming ray at the point of the hit.  `None` means
    /// that the ray is absorbed; otherwise `attenuation` holds the factor
    /// by which the light along the returned ray is tinted.
    pub fn scatter(&self, ray_in: &Ray, rec: &HitRecord, attenuation: &mut Color) -> (out: Option<
        Ray,
    >)
        requires
            ray_in.dir.spec_length().raw > 0,
        ensures
            self.scatters(ray_in, rec, *final(attenuation), out),
            out matches Some(ray) ==> ray.orig == rec.p,
    {
        proof {
            ScatterSample::lemma_plain_valid();
        }
        match self {
            Material::Lambertian(m) => {
                let out = m.scatter(ray_in, rec, attenuation);
                proof {
                    let unit = choose|unit: Vec3| #[trigger]
                        unit.on_unit_sphere() && out == Some(
                            Ray { orig: rec.p, dir: Lambertian::spec_direction(rec.normal, unit) },
                        );
                    let sample = ScatterSample { direction: unit, ..ScatterSample::plain() };
                    assert(sample.valid() && out == self.spec_scatter_with(ray_in, rec, &sample));
                }
                out
            },
            Material::Metal(m) => {
                let out = m.scatter(ray_in, rec, attenuation);
                proof {
                    let offset = choose|offset: Vec3| #[trigger]
                        offset.in_unit_ball() && out == m.spec_scatter_with(ray_in, rec, offset);
                    let sample = ScatterSample { offset, ..ScatterSample::plain() };
                    assert(sample.valid() && out == self.spec_scatter_with(ray_in, rec, &sample));
                }
                out
            },
            Material::Dielectric(m) => {
                let out = m.scatter(ray_in, rec, attenuation);
                proof {
                    let fraction = choose|fraction: Fixed| #[trigger]
                        is_unit_sample(fraction) && out == Some(
                            m.spec_scatter_with(ray_in, rec, fraction),
                        );
                    let sample = ScatterSample { fraction, ..ScatterSample::plain() };
                    assert(sample.valid() && out == self.spec_scatter_with(ray_in, rec, &sample));
                }
                out
            },
        }
    }
}

impl From<Lambertian> for Material {
    #[inline]
    fn from(material: Lambertian) -> (m: Material)
        ensures
            m == Material::Lambertian(material),
    {
        Material::Lambertian(material)
    }
}

impl FromSpecImpl<Lambertian> for Material {
    open spec fn obeys_from_spec() -> bool {
        true
    }

    open spec fn from_spec(material: Lambertian) -> Material {
        Material::Lambertian(material)
    }
}

impl From<Metal> for Material {
    #[inline]
    fn from(material: Metal) -> (m: Material)
        ensures
            m == Material::Metal(material),
    {
        Material::Metal(material)
    }
}

impl FromSpecImpl<Metal> for Material {
    open spec fn obeys_from_spec() -> bool {
        true
    }

    open spec fn from_spec(material: Metal) -> Material {
        Material::Metal(material)
    }
}

impl From<Dielectric> for Material {
    #[inline]
    fn from(material: Dielectric) -> (m: Material)
        ensures
            m == Material::Dielectric(material),
    {
        Material::Dielectric(material)
    }
}

impl FromSpecImpl<Dielectric> for Material {
    open spec fn obeys_from_spec() -> bool {
        true
    }

    open spec fn from_spec(material: Dielectric) -> Material {
        Material::Dielectric(material)
    }
}

} // verus!
