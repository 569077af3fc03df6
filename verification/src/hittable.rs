//! Surfaces that a ray can hit, and collections of them.
use crate::fixed::Fixed;
use crate::material::Material;
use crate::ray::Ray;
use crate::vec3::Point3;
use crate::vec3::Vec3;
use core::ops::Neg;
use vstd::prelude::*;

verus! {

/// What is known of the point where a ray meets a surface.
#[derive(Clone, Copy, PartialEq, Eq, Structural, Debug)]
pub struct HitRecord {
    /// The point of intersection.
    pub p: Point3,
    /// The surface normal there, turned against the incoming ray.
    pub normal: Vec3,
    /// The ray parameter of the intersection.
    pub t: Fixed,
    /// Whether the ray arrives from outside the surface.
    pub front_face: bool,
    /// The material of the surface.
    pub material: Material,
}

impl HitRecord {
    /// The record with its normal and face set from the outward normal: the
    /// ray meets the front face where it runs against the outward normal,
    /// and the stored normal always opposes the ray.
    pub open spec fn with_normal_face(self, r: &Ray, outward_normal: Vec3) -> HitRecord {
        let front_face = r.dir.spec_dot(&outward_normal).raw < 0;
        HitRecord {
            front_face,
            normal: if front_face {
                outward_normal
            } else {
                outward_normal.spec_neg()
            },
            ..self
        }
    }

    /// The stored normal never runs with the ray: the dot product of the
    /// two is not positive.  The outward normal is to have no component at
    /// the most negative value, which cannot be negated.
    pub proof fn lemma_normal_faces_ray(self, r: &Ray, outward_normal: Vec3)
        requires
            outward_normal.0.raw > i64::MIN,
            outward_normal.1.raw > i64::MIN,
            outward_normal.2.raw > i64::MIN,
        ensures
            r.dir.spec_dot(&self.with_normal_face(r, outward_normal).normal).raw <= 0,
    {
        let d = r.dir;
        let n = outward_normal;
        let m = outward_normal.spec_neg();
        assert(d.dot_raw(m) == -d.dot_raw(n)) by (nonlinear_arith)
            requires
                d.dot_raw(m) == d.0.raw * (-n.0.raw) + d.1.raw * (-n.1.raw) + d.2.raw * (
                -n.2.raw),
                d.dot_raw(n) == d.0.raw * n.0.raw + d.1.raw * n.1.raw + d.2.raw * n.2.raw,
        ;
    }

    /// Sets the face and the normal of the record from the outward normal
    /// of the surface.
    #[inline]
    pub fn set_normal_face(&mut self, r: &Ray, outward_normal: Vec3)
        ensures
            *final(self) == old(self).with_normal_face(r, outward_normal),
    {
        self.front_face = r.dir().dot(&outward_normal) < Fixed::zero();
        self.normal = if self.front_face {
            outward_normal
        } else {
            outward_normal.neg()
        }
    }
}

/// `hit` restricted to parameters below `bound`.
pub open spec fn below(hit: Option<HitRecord>, bound: Fixed) -> Option<HitRecord> {
    match hit {
        Some(rec) => if rec.t.raw < bound.raw {
            Some(rec)
        } else {
            None
        },
        None => None,
    }
}

/// A surface that can be tested for intersection with a ray.
pub trait Hittable {
    /// The intersection of `r` with the surface that `hit` reports: the
    /// nearest one whose parameter lies strictly between `t_min` and
    /// `t_max`, if there is one.
    spec fn spec_hit(&self, r: &Ray, t_min: Fixed, t_max: Fixed) -> Option<HitRecord>;

    /// A reported intersection lies strictly between the bounds.
    proof fn lemma_hit_in_range(&self, r: &Ray, t_min: Fixed, t_max: Fixed)
        ensures
            self.spec_hit(r, t_min, t_max) matches Some(rec) ==> t_min.raw < rec.t.raw
                < t_max.raw,
    ;

    /// Lowering the upper bound never uncovers another intersection: the
    /// answer is the old one if it is still below the bound, and none
    /// otherwise.
    proof fn lemma_hit_restricts(&self, r: &Ray, t_min: Fixed, t_max: Fixed, bound: Fixed)
        requires
            bound.raw <= t_max.raw,
        ensures
            self.spec_hit(r, t_min, bound) == below(self.spec_hit(r, t_min, t_max), bound),
    ;

    /// Tests the ray against the surface.
    fn hit(&self, r: &Ray, t_min: Fixed, t_max: Fixed) -> (res: Option<HitRecord>)
        ensures
            res == self.spec_hit(r, t_min, t_max),
    ;
}

/// An ordered collection of surfaces.
pub struct HittableList<H: Hittable> {
    pub objects: Vec<H>,
}

impl<H: Hittable> HittableList<H> {
    /// The nearest intersection among `objects`, found by scanning them in
    /// order while the upper bound shrinks to the closest one so far.
    pub open spec fn closest(objects: Seq<H>, r: &Ray, t_min: Fixed, t_max: Fixed) -> Option<
        HitRecord,
    >
        decreases objects.len(),
    {
        if objects.len() == 0 {
            None
        } else {
            let before = Self::closest(objects.drop_last(), r, t_min, t_max);
            let bound = match before {
                Some(rec) => rec.t,
                None => t_max,
            };
            match objects.last().spec_hit(r, t_min, bound) {
                Some(rec) => Some(rec),
                None => before,
            }
        }
    }

    /// `rec` is what the surface at index `k` reports over the whole
    /// interval, no surface reports a nearer intersection, and none before
    /// `k` reports one as near.
    pub open spec fn is_nearest(
        objects: Seq<H>,
        r: &Ray,
        t_min: Fixed,
        t_max: Fixed,
        k: int,
        rec: HitRecord,
    ) -> bool {
        &&& 0 <= k < objects.len()
        &&& objects[k].spec_hit(r, t_min, t_max) == Some(rec)
        &&& forall|i: int|
            0 <= i < objects.len() ==> (#[trigger] objects[i].spec_hit(r, t_min, t_max) matches Some(
                other,
            ) ==> rec.t.raw <= other.t.raw && (i < k ==> rec.t.raw < other.t.raw))
    }

    /// The empty collection.
    pub fn new() -> (list: Self)
        ensures
            list.objects@ == Seq::<H>::empty(),
    {
        HittableList { objects: Vec::new() }
    }

    /// Appends a surface to the collection.
    pub fn add(&mut self, object: H)
        ensures
            final(self).objects@ == old(self).objects@.push(object),
    {
        self.objects.push(object);
    }
}

impl<H: Hittable> Hittable for HittableList<H> {
    open spec fn spec_hit(&self, r: &Ray, t_min: Fixed, t_max: Fixed) -> Option<HitRecord> {
        Self::closest(self.objects@, r, t_min, t_max)
    }

    proof fn lemma_hit_in_range(&self, r: &Ray, t_min: Fixed, t_max: Fixed) {
        Self::lemma_closest_in_range(self.objects@, r, t_min, t_max);
    }

    proof fn lemma_hit_restricts(&self, r: &Ray, t_min: Fixed, t_max: Fixed, bound: Fixed) {
        Self::lemma_closest_restricts(self.objects@, r, t_min, t_max, bound);
    }

    fn hit(&self, r: &Ray, t_min: Fixed, t_max: Fixed) -> (res: Option<HitRecord>)
        ensures
            res == self.spec_hit(r, t_min, t_max),
    {
        let mut found: Option<HitRecord> = None;
        let mut closest_so_far = t_max;
        let n = self.objects.len();
        let mut i: usize = 0;
        while i < n
            invariant
                i <= n,
                n == self.objects@.len(),
                found == Self::closest(self.objects@.take(i as int), r, t_min, t_max),
                closest_so_far == (match found {
                    Some(rec) => rec.t,
                    None => t_max,
                }),
            decreases n - i,
        {
            proof {
                assert(self.objects@.take(i + 1).drop_last() == self.objects@.take(i as int));
                assert(self.objects@.take(i + 1).last() == self.objects@[i as int]);
            }
            if let Some(rec) = self.objects[i].hit(r, t_min, closest_so_far) {
                closest_so_far = rec.t;
                found = Some(rec);
            }
            i = i + 1;
        }
        proof {
            assert(self.objects@.take(n as int) == self.objects@);
        }
        found
    }
}

impl<H: Hittable> HittableList<H> {
    /// The nearest intersection lies strictly between the bounds.
    pub proof fn lemma_closest_in_range(objects: Seq<H>, r: &Ray, t_min: Fixed, t_max: Fixed)
        ensures
            Self::closest(objects, r, t_min, t_max) matches Some(rec) ==> t_min.raw < rec.t.raw
                < t_max.raw,
        decreases objects.len(),
    {
        if objects.len() > 0 {
            Self::lemma_closest_in_range(objects.drop_last(), r, t_min, t_max);
            let before = Self::closest(objects.drop_last(), r, t_min, t_max);
            let bound = match before {
                Some(rec) => rec.t,
                None => t_max,
            };
            objects.last().lemma_hit_in_range(r, t_min, bound);
        }
    }

    /// Lowering the upper bound of a scan restricts its answer.
    pub proof fn lemma_closest_restricts(
        objects: Seq<H>,
        r: &Ray,
        t_min: Fixed,
        t_max: Fixed,
        bound: Fixed,
    )
        requires
            bound.raw <= t_max.raw,
        ensures
            Self::closest(objects, r, t_min, bound) == below(
                Self::closest(objects, r, t_min, t_max),
                bound,
            ),
        decreases objects.len(),
    {
        if objects.len() > 0 {
            let init = objects.drop_last();
            Self::lemma_closest_restricts(init, r, t_min, t_max, bound);
            Self::lemma_closest_in_range(init, r, t_min, t_max);
            let wide = Self::closest(init, r, t_min, t_max);
            let narrow = Self::closest(init, r, t_min, bound);
            let wide_bound = match wide {
                Some(rec) => rec.t,
                None => t_max,
            };
            let narrow_bound = match narrow {
                Some(rec) => rec.t,
                None => bound,
            };
            objects.last().lemma_hit_restricts(r, t_min, wide_bound, narrow_bound);
            objects.last().lemma_hit_in_range(r, t_min, wide_bound);
        }
    }

    /// A scan reports the nearest intersection of the whole collection, the
    /// first of them where several are equally near, and reports none only
    /// where no surface is hit.
    pub proof fn lemma_closest_is_nearest(objects: Seq<H>, r: &Ray, t_min: Fixed, t_max: Fixed)
        ensures
            match Self::closest(objects, r, t_min, t_max) {
                Some(rec) => exists|k: int| Self::is_nearest(objects, r, t_min, t_max, k, rec),
                None => forall|i: int|
                    0 <= i < objects.len() ==> (#[trigger] objects[i].spec_hit(r, t_min, t_max))
                        is None,
            },
        decreases objects.len(),
    {
        if objects.len() > 0 {
            let init = objects.drop_last();
            let last = objects.last();
            Self::lemma_closest_is_nearest(init, r, t_min, t_max);
            Self::lemma_closest_in_range(init, r, t_min, t_max);
            let before = Self::closest(init, r, t_min, t_max);
            let bound = match before {
                Some(rec) => rec.t,
                None => t_max,
            };
            last.lemma_hit_restricts(r, t_min, t_max, bound);
            last.lemma_hit_in_range(r, t_min, t_max);
            assert(forall|i: int| 0 <= i < init.len() ==> init[i] == objects[i]);
            match last.spec_hit(r, t_min, bound) {
                Some(rec) => {
                    let k = objects.len() - 1;
                    match before {
                        Some(prev) => {
                            let k0 = choose|k0: int|
                                Self::is_nearest(init, r, t_min, t_max, k0, prev);
                            assert forall|i: int| 0 <= i < objects.len() implies (
                            #[trigger] objects[i].spec_hit(r, t_min, t_max) matches Some(other)
                                ==> rec.t.raw <= other.t.raw && (i < k ==> rec.t.raw
                                < other.t.raw)) by {
                                if i < k {
                                    assert(init[i] == objects[i]);
                                }
                            }
                        },
                        None => {
                            assert forall|i: int| 0 <= i < objects.len() implies (
                            #[trigger] objects[i].spec_hit(r, t_min, t_max) matches Some(other)
                                ==> rec.t.raw <= other.t.raw && (i < k ==> rec.t.raw
                                < other.t.raw)) by {
                                if i < k {
                                    assert(init[i] == objects[i]);
                                }
                            }
                        },
                    }
                    assert(Self::is_nearest(objects, r, t_min, t_max, k, rec));
                },
                None => {
                    match before {
                        Some(prev) => {
                            let k0 = choose|k0: int|
                                Self::is_nearest(init, r, t_min, t_max, k0, prev);
                            assert(init[k0] == objects[k0]);
                            assert forall|i: int| 0 <= i < objects.len() implies (
                            #[trigger] objects[i].spec_hit(r, t_min, t_max) matches Some(other)
                                ==> prev.t.raw <= other.t.raw && (i < k0 ==> prev.t.raw
                                < other.t.raw)) by {
                                if i < objects.len() - 1 {
                                    assert(init[i] == objects[i]);
                                }
                            }
                            assert(Self::is_nearest(objects, r, t_min, t_max, k0, prev));
                        },
                        None => {
                            assert forall|i: int| 0 <= i < objects.len() implies (
                            #[trigger] objects[i].spec_hit(r, t_min, t_max)) is None by {
                                if i < objects.len() - 1 {
                                    assert(init[i] == objects[i]);
                                }
                            }
                        },
                    }
                },
            }
        }
    }

    /// How near the nearest intersection is does not depend on the order of
    /// the surfaces, nor on how often each occurs: two collections of the
    /// same surfaces are hit or missed together, and hit equally near.
    pub proof fn lemma_closest_ignores_order(
        a: Seq<H>,
        b: Seq<H>,
        r: &Ray,
        t_min: Fixed,
        t_max: Fixed,
    )
        requires
            forall|x: H| a.contains(x) <==> b.contains(x),
        ensures
            match (Self::closest(a, r, t_min, t_max), Self::closest(b, r, t_min, t_max)) {
                (Some(x), Some(y)) => x.t == y.t,
                (None, None) => true,
                _ => false,
            },
    {
        Self::lemma_closest_is_nearest(a, r, t_min, t_max);
        Self::lemma_closest_is_nearest(b, r, t_min, t_max);
        Self::lemma_no_nearer_elsewhere(a, b, r, t_min, t_max);
        Self::lemma_no_nearer_elsewhere(b, a, r, t_min, t_max);
    }

    /// What the first collection is hit by is in the second, so the second
    /// is hit, and no farther.
    proof fn lemma_no_nearer_elsewhere(a: Seq<H>, b: Seq<H>, r: &Ray, t_min: Fixed, t_max: Fixed)
        requires
            forall|x: H| a.contains(x) ==> b.contains(x),
        ensures
            Self::closest(a, r, t_min, t_max) matches Some(x) ==> (Self::closest(
                b,
                r,
                t_min,
                t_max,
            ) matches Some(y) && y.t.raw <= x.t.raw),
    {
        Self::lemma_closest_is_nearest(a, r, t_min, t_max);
        Self::lemma_closest_is_nearest(b, r, t_min, t_max);
        if let Some(x) = Self::closest(a, r, t_min, t_max) {
            let k = choose|k: int| Self::is_nearest(a, r, t_min, t_max, k, x);
            assert(a.contains(a[k]));
            let j = choose|j: int| 0 <= j < b.len() && b[j] == a[k];
            assert(b[j].spec_hit(r, t_min, t_max) == Some(x));
        }
    }
}

} // verus!
