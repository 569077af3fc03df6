//! The camera: from a point of the image to a ray into the scene.
use crate::accuracy::is_unit;
use crate::accuracy::lemma_cross_perpendicular;
use crate::accuracy::lemma_unit_vector_is_unit;
use crate::fixed::magnitude;
use crate::fixed::Fixed;
use crate::fixed::ONE_RAW;
use crate::ray::Ray;
use crate::vec3::Point3;
use crate::vec3::Vec3;
use vstd::prelude::*;

verus! {

/// The raw representation of the number pi.
pub const PI_RAW: i64 = 13_493_037_705;

/// The angle in radians that measures `deg` degrees: `deg * pi / 180`.
pub open spec fn spec_deg_to_rad(deg: Fixed) -> Fixed {
    deg.spec_mul(Fixed { raw: PI_RAW }).spec_div(Fixed::from_int(180i32))
}

/// Converts an angle from degrees to radians.
#[inline]
#[verifier::when_used_as_spec(spec_deg_to_rad)]
pub fn deg_to_rad(deg: Fixed) -> (rad: Fixed)
    ensures
        rad == spec_deg_to_rad(deg),
{
    deg * Fixed::from_raw(PI_RAW) / Fixed::from_int(180)
}

/// A thin-lens camera.
#[derive(Clone, Copy, PartialEq, Eq, Structural, Debug)]
pub struct Camera {
    /// The centre of the lens.
    pub origin: Point3,
    /// The corner of the plane of focus that the image point `(0, 0)` shows.
    pub lower_left_corner: Point3,
    /// The edge of the plane of focus along which the first image
    /// coordinate runs.
    pub horizontal: Vec3,
    /// The edge of the plane of focus along which the second image
    /// coordinate runs.
    pub vertical: Vec3,
    /// The unit vector to the right of the view.
    pub u: Vec3,
    /// The unit vector up the view.
    pub v: Vec3,
    /// The unit vector against the view.
    pub w: Vec3,
    /// Half the aperture.
    pub lens_radius: Fixed,
}

impl Camera {
    /// The unit vector from the point looked at to the eye.
    pub open spec fn spec_backward(lookfrom: Vec3, lookat: Vec3) -> Vec3 {
        lookfrom.spec_sub(lookat).spec_unit_vector()
    }

    /// The eye and the point looked at differ, and the view is not along
    /// `vup`: the camera has a frame.
    pub open spec fn has_frame(lookfrom: Vec3, lookat: Vec3, vup: Vec3) -> bool {
        &&& lookfrom.spec_sub(lookat).spec_length().raw > 0
        &&& vup.spec_cross(Self::spec_backward(lookfrom, lookat)).spec_length().raw > 0
    }

    /// The camera at `lookfrom` that looks at `lookat` with `vup` upward,
    /// sees `vfov` degrees from bottom to top of an image `aspect_ratio`
    /// times as wide as high, through a lens of diameter `aperture` that is
    /// focused at the distance `focus_dist`.
    pub open spec fn spec_new(
        lookfrom: Vec3,
        lookat: Vec3,
        vup: Vec3,
        vfov: Fixed,
        aspect_ratio: Fixed,
        aperture: Fixed,
        focus_dist: Fixed,
    ) -> Camera {
        let theta = spec_deg_to_rad(vfov);
        let h = theta.spec_div(Fixed::from_int(2i32)).spec_tan();
        let viewport_height = Fixed::from_int(2i32).spec_mul(h);
        let viewport_width = aspect_ratio.spec_mul(viewport_height);
        let w = Self::spec_backward(lookfrom, lookat);
        let u = vup.spec_cross(w).spec_unit_vector();
        let v = w.spec_cross(u);
        let horizontal = u.scale(focus_dist.spec_mul(viewport_width));
        let vertical = v.scale(focus_dist.spec_mul(viewport_height));
        Camera {
            origin: lookfrom,
            horizontal,
            vertical,
            lower_left_corner: lookfrom.spec_sub(horizontal.shrink(Fixed::from_int(2i32))).spec_sub(
                vertical.shrink(Fixed::from_int(2i32)),
            ).spec_sub(w.scale(focus_dist)),
            u,
            v,
            w,
            lens_radius: aperture.spec_div(Fixed::from_int(2i32)),
        }
    }

    /// The ray for the image point `(s, t)` that leaves the lens at the
    /// point that `disk`, a point of the unit disk, selects.  It starts
    /// there and aims at the point of the plane of focus that `(s, t)`
    /// shows.
    pub open spec fn spec_get_ray_with(&self, s: Fixed, t: Fixed, disk: Vec3) -> Ray {
        let rd = disk.scale(self.lens_radius);
        let offset = self.u.scale(rd.0).spec_add(self.v.scale(rd.1));
        Ray {
            orig: self.origin.spec_add(offset),
            dir: self.lower_left_corner.spec_add(self.horizontal.scale(s)).spec_add(
                self.vertical.scale(t),
            ).spec_sub(self.origin).spec_sub(offset),
        }
    }

    /// The frame of a camera is orthonormal as far as the rounding allows.
    /// Where the eye is at least half a unit from the point looked at, and
    /// `vup` is far enough from the line of sight for its cross product
    /// with the backward vector to be at least half a unit long, `w` and
    /// `u` are unit vectors and `v` is perpendicular to both: its exact dot
    /// products with them are at most three units of `2^-32`.
    pub proof fn lemma_frame(
        lookfrom: Vec3,
        lookat: Vec3,
        vup: Vec3,
        vfov: Fixed,
        aspect_ratio: Fixed,
        aperture: Fixed,
        focus_dist: Fixed,
    )
        requires
            ONE_RAW / 2 <= lookfrom.spec_sub(lookat).spec_length().raw < i64::MAX,
            ONE_RAW / 2 <= vup.spec_cross(Self::spec_backward(lookfrom, lookat)).spec_length().raw
                < i64::MAX,
        ensures
            ({
                let cam = Self::spec_new(
                    lookfrom,
                    lookat,
                    vup,
                    vfov,
                    aspect_ratio,
                    aperture,
                    focus_dist,
                );
                &&& Self::has_frame(lookfrom, lookat, vup)
                &&& is_unit(cam.w)
                &&& is_unit(cam.u)
                &&& magnitude(cam.v.dot_raw(cam.w)) <= 3 * ONE_RAW
                &&& magnitude(cam.v.dot_raw(cam.u)) <= 3 * ONE_RAW
            }),
    {
        let w = Self::spec_backward(lookfrom, lookat);
        lemma_unit_vector_is_unit(lookfrom.spec_sub(lookat));
        lemma_unit_vector_is_unit(vup.spec_cross(w));
        let u = vup.spec_cross(w).spec_unit_vector();
        lemma_cross_perpendicular(w, u);
    }

    /// Places a camera.  The eye must differ from the point looked at and
    /// the view must not run along `vup`; `can_frame` tests both.
    #[verifier::when_used_as_spec(spec_new)]
    pub fn new(
        lookfrom: Vec3,
        lookat: Vec3,
        vup: Vec3,
        vfov: Fixed,
        aspect_ratio: Fixed,
        aperture: Fixed,
        focus_dist: Fixed,
    ) -> (cam: Camera)
        requires
            Self::has_frame(lookfrom, lookat, vup),
        ensures
            cam == Self::spec_new(lookfrom, lookat, vup, vfov, aspect_ratio, aperture, focus_dist),
    {
        let theta = deg_to_rad(vfov);
        let h = (theta / Fixed::from_int(2)).tan();
        let viewport_height = Fixed::from_int(2) * h;
        let viewport_width = aspect_ratio * viewport_height;

        let x: Vec3 = lookfrom - lookat;

        let w: Vec3 = x.unit_vector();
        let u: Vec3 = vup.cross(w).unit_vector();
        let v = w.cross(u);

        let origin = lookfrom;
        let horizontal = (focus_dist * viewport_width) * u;
        let vertical = (focus_dist * viewport_height) * v;
        let lower_left_corner = origin - horizontal / Fixed::from_int(2) - vertical
            / Fixed::from_int(2) - focus_dist * w;

        let lens_radius = aperture / Fixed::from_int(2);
        Camera { origin, horizontal, vertical, lower_left_corner, u, v, w, lens_radius }
    }

    /// Whether a camera can be placed at `lookfrom` to look at `lookat`
    /// with `vup` upward.
    #[verifier::when_used_as_spec(has_frame)]
    pub fn can_frame(lookfrom: Vec3, lookat: Vec3, vup: Vec3) -> (b: bool)
        ensures
            b == Self::has_frame(lookfrom, lookat, vup),
    {
        let x: Vec3 = lookfrom - lookat;
        if x.is_zero() {
            false
        } else {
            !vup.cross(x.unit_vector()).is_zero()
        }
    }

    /// The ray for the image point `(s, t)` through a given point of the
    /// lens.
    #[verifier::when_used_as_spec(spec_get_ray_with)]
    pub fn get_ray_with(&self, s: Fixed, t: Fixed, disk: Vec3) -> (r: Ray)
        ensures
            r == self.spec_get_ray_with(s, t, disk),
    {
        let rd: Vec3 = self.lens_radius * disk;
        let offset: Vec3 = self.u * rd.x() + self.v * rd.y();
        Ray {
            orig: self.origin + offset,
            dir: self.lower_left_corner + s * self.horizontal + t * self.vertical - self.origin
                - offset,
        }
    }

    /// The ray for the image point `(s, t)` through a random point of the
    /// lens.
    #[inline]
    pub fn get_ray(&self, s: Fixed, t: Fixed) -> (r: Ray)
        ensures
            exists|disk: Vec3| #[trigger] disk.in_unit_disk() && r == self.spec_get_ray_with(s, t, disk),
    {
        let disk = Vec3::random_in_unit_disk();
        self.get_ray_with(s, t, disk)
    }
}

} // verus!
