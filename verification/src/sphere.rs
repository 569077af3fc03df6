//! Spheres.
use crate::fixed::Fixed;
use crate::hittable::HitRecord;
use crate::hittable::Hittable;
use crate::material::Material;
use crate::ray::Ray;
use crate::vec3::Point3;
use crate::vec3::Vec3;
use core::ops::Neg;
use vstd::prelude::*;

verus! {

/// A sphere.  A negative radius turns the surface inside out: the
/// intersections stay where they are and the outward normal points to the
/// centre, which models the inner wall of a hollow body.
#[derive(Clone, Copy, PartialEq, Eq, Structural, Debug)]
pub struct Sphere {
    pub center: Point3,
    pub radius: Fixed,
    pub material: Material,
}

impl Sphere {
    /// The discriminant of the quadratic `a t^2 + 2 half_b t + c = 0` that
    /// the parameters of the intersections with `r` solve, and its
    /// coefficients `a` and `half_b`.
    pub open spec fn quadratic(&self, r: &Ray) -> (Fixed, Fixed, Fixed) {
        let oc = r.orig.spec_sub(self.center);
        let a = r.dir.spec_length_squared();
        let half_b = oc.spec_dot(&r.dir);
        let c = oc.spec_length_squared().spec_sub(self.radius.spec_mul(self.radius));
        (a, half_b, half_b.spec_mul(half_b).spec_sub(a.spec_mul(c)))
    }

    /// The smaller root of the quadratic, where the discriminant is not
    /// negative.
    pub open spec fn near_root(&self, r: &Ray) -> Fixed {
        let (a, half_b, disc) = self.quadratic(r);
        half_b.spec_neg().spec_sub(disc.spec_sqrt()).spec_div(a)
    }

    /// The larger root of the quadratic, where the discriminant is not
    /// negative.
    pub open spec fn far_root(&self, r: &Ray) -> Fixed {
        let (a, half_b, disc) = self.quadratic(r);
        half_b.spec_neg().spec_add(disc.spec_sqrt()).spec_div(a)
    }

    /// The record of the intersection at parameter `t`: the outward normal
    /// is the offset from the centre divided by the radius.
    pub open spec fn record_at(&self, r: &Ray, t: Fixed) -> HitRecord {
        let p = r.spec_at(t);
        let rec = HitRecord {
            p,
            normal: Vec3(Fixed::zero(), Fixed::zero(), Fixed::zero()),
            t,
            front_face: false,
            material: self.material,
        };
        rec.with_normal_face(r, p.spec_sub(self.center).shrink(self.radius))
    }

    /// The sphere around `center` with the given radius and material.
    pub fn new(center: Point3, radius: Fixed, m: &Material) -> (s: Sphere)
        ensures
            s == (Sphere { center, radius, material: *m }),
    {
        Sphere { center, radius, material: *m }
    }

    /// The roots of the quadratic are in order.
    pub proof fn lemma_roots_ordered(&self, r: &Ray)
        requires
            self.quadratic(r).2.raw >= 0,
        ensures
            self.near_root(r).raw <= self.far_root(r).raw,
    {
        let (a, half_b, disc) = self.quadratic(r);
        let sqrtd = disc.spec_sqrt();
        disc.lemma_sqrt_range();
        r.dir.lemma_length_squared_nonnegative();
        Fixed::lemma_div_monotone(
            half_b.spec_neg().spec_sub(sqrtd),
            half_b.spec_neg().spec_add(sqrtd),
            a,
        );
    }
}

impl Hittable for Sphere {
    /// The smaller root where it lies strictly between the bounds, else the
    /// larger one where that does, else nothing.
    open spec fn spec_hit(&self, r: &Ray, t_min: Fixed, t_max: Fixed) -> Option<HitRecord> {
        if self.quadratic(r).2.raw < 0 {
            None
        } else if t_min.raw < self.near_root(r).raw < t_max.raw {
            Some(self.record_at(r, self.near_root(r)))
        } else if t_min.raw < self.far_root(r).raw < t_max.raw {
            Some(self.record_at(r, self.far_root(r)))
        } else {
            None
        }
    }

    proof fn lemma_hit_in_range(&self, r: &Ray, t_min: Fixed, t_max: Fixed) {
    }

    proof fn lemma_hit_restricts(&self, r: &Ray, t_min: Fixed, t_max: Fixed, bound: Fixed) {
        if self.quadratic(r).2.raw >= 0 {
            self.lemma_roots_ordered(r);
        }
    }

    fn hit(&self, r: &Ray, t_min: Fixed, t_max: Fixed) -> (res: Option<HitRecord>)
        ensures
            res == self.spec_hit(r, t_min, t_max),
    {
        let oc = r.orig() - self.center;
        let a = r.dir.length_squared();
        let half_b = oc.dot(&r.dir);
        let c = oc.length_squared() - self.radius * self.radius;

        let disc = half_b * half_b - a * c;
        if disc < Fixed::zero() {
            return None;
        }
        let sqrtd = disc.sqrt();
        let mut root = (half_b.neg() - sqrtd) / a;
        if root <= t_min || t_max <= root {
            root = (half_b.neg() + sqrtd) / a;
            if root <= t_min || t_max <= root {
                return None;
            }
        }
        let p = r.at(root);
        let mut rec = HitRecord {
            p,
            normal: Vec3(Fixed::zero(), Fixed::zero(), Fixed::zero()),
            t: root,
            front_face: false,
            material: self.material,
        };
        rec.set_normal_face(r, (p - self.center) / self.radius);
        Some(rec)
    }
}

} // verus!
