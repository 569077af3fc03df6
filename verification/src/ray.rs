//! Rays: an origin and a direction.
use crate::fixed::Fixed;
use crate::vec3::Point3;
use crate::vec3::Vec3;
use vstd::prelude::*;

verus! {

/// The half-line `orig + t * dir`.
#[derive(Clone, Copy, PartialEq, Eq, Structural, Debug)]
pub struct Ray {
    pub orig: Point3,
    pub dir: Vec3,
}

impl Ray {
    /// The point at parameter `t`.
    pub open spec fn spec_at(&self, t: Fixed) -> Point3 {
        self.orig.spec_add(self.dir.scale(t))
    }

    /// The ray from `orig` in the direction `dir`.
    pub fn new(orig: Point3, dir: Vec3) -> (r: Ray)
        ensures
            r == (Ray { orig, dir }),
    {
        Ray { orig, dir }
    }

    /// The origin of the ray.
    pub fn orig(&self) -> (p: Point3)
        ensures
            p == self.orig,
    {
        self.orig
    }

    /// The direction of the ray.
    pub fn dir(&self) -> (d: Vec3)
        ensures
            d == self.dir,
    {
        self.dir
    }

    /// The point at parameter `t`: `orig + t * dir`.
    #[verifier::when_used_as_spec(spec_at)]
    pub fn at(&self, t: Fixed) -> (p: Point3)
        ensures
            p == self.spec_at(t),
    {
        self.orig + self.dir * t
    }
}

impl Default for Ray {
    fn default() -> (r: Ray)
        ensures
            r == (Ray {
                orig: Vec3(Fixed::one(), Fixed::one(), Fixed::one()),
                dir: Vec3(Fixed::one(), Fixed::one(), Fixed::one()),
            }),
    {
        Ray { orig: Vec3::default(), dir: Vec3::default() }
    }
}

} // verus!
