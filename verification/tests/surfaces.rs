use raytracer::fixed::Fixed;
use raytracer::hittable::HitRecord;
use raytracer::hittable::Hittable;
use raytracer::hittable::HittableList;
use raytracer::material::Lambertian;
use raytracer::material::Material;
use raytracer::material::Metal;
use raytracer::ray::Ray;
use raytracer::sphere::Sphere;
use raytracer::vec3::Vec3;

fn fx(x: f64) -> Fixed {
    Fixed::from_raw((x * 4294967296.0).round() as i64)
}

fn val(x: Fixed) -> f64 {
    x.raw() as f64 / 4294967296.0
}

fn v(x: f64, y: f64, z: f64) -> Vec3 {
    Vec3::new(fx(x), fx(y), fx(z))
}

fn grey() -> Material {
    Material::Lambertian(Lambertian::new(v(0.5, 0.5, 0.5)))
}

fn red() -> Material {
    Material::Lambertian(Lambertian::new(v(1.0, 0.0, 0.0)))
}

fn far() -> Fixed {
    Fixed::from_raw(i64::MAX)
}

fn blank() -> HitRecord {
    HitRecord {
        p: v(0.0, 0.0, 0.0),
        normal: v(0.0, 0.0, 0.0),
        t: fx(0.0),
        front_face: false,
        material: grey(),
    }
}

#[test]
fn sphere_hit_head_on() {
    let s = Sphere::new(v(0.0, 0.0, -1.0), fx(0.5), &grey());
    let r = Ray::new(v(0.0, 0.0, 0.0), v(0.0, 0.0, -1.0));
    let rec = s.hit(&r, fx(0.001), far()).unwrap();
    assert_eq!(rec.t, fx(0.5));
    assert_eq!(rec.normal, v(0.0, 0.0, 1.0));
    assert!(rec.front_face);
    assert_eq!(rec.p, v(0.0, 0.0, -0.5));
    assert_eq!(rec.material, grey());
}

#[test]
fn sphere_keeps_its_fields() {
    let s = Sphere::new(v(1.0, 2.0, 3.0), fx(-0.45), &red());
    assert_eq!(s.center, v(1.0, 2.0, 3.0));
    assert_eq!(s.radius, fx(-0.45));
    assert_eq!(s.material, red());
}

#[test]
fn sphere_hit_from_inside_turns_the_normal() {
    let s = Sphere::new(v(0.0, 0.0, -1.0), fx(0.5), &grey());
    let r = Ray::new(v(0.0, 0.0, -1.0), v(0.0, 0.0, -1.0));
    let rec = s.hit(&r, fx(0.001), far()).unwrap();
    assert_eq!(rec.t, fx(0.5));
    assert_eq!(rec.p, v(0.0, 0.0, -1.5));
    assert_eq!(rec.normal, v(0.0, 0.0, 1.0));
    assert!(!rec.front_face);
}

#[test]
fn sphere_of_negative_radius_is_inside_out() {
    let s = Sphere::new(v(0.0, 0.0, -1.0), fx(-0.5), &grey());
    let r = Ray::new(v(0.0, 0.0, 0.0), v(0.0, 0.0, -1.0));
    let rec = s.hit(&r, fx(0.001), far()).unwrap();
    assert_eq!(rec.t, fx(0.5));
    assert_eq!(rec.p, v(0.0, 0.0, -0.5));
    assert_eq!(rec.normal, v(0.0, 0.0, 1.0));
    assert!(!rec.front_face);
}

#[test]
fn sphere_missed() {
    let s = Sphere::new(v(0.0, 0.0, -1.0), fx(0.5), &grey());
    assert!(s.hit(&Ray::new(v(0.0, 0.0, 0.0), v(1.0, 0.0, 0.0)), fx(0.001), far()).is_none());
    assert!(s.hit(&Ray::new(v(0.0, 0.0, 0.0), v(0.0, 0.0, 1.0)), fx(0.001), far()).is_none());
    assert!(s.hit(&Ray::new(v(0.0, 1.0, 0.0), v(0.0, 0.0, -1.0)), fx(0.001), far()).is_none());
}

#[test]
fn sphere_hit_respects_the_open_interval() {
    let s = Sphere::new(v(0.0, 0.0, -1.0), fx(0.5), &grey());
    let r = Ray::new(v(0.0, 0.0, 0.0), v(0.0, 0.0, -1.0));
    assert!(s.hit(&r, fx(0.001), fx(0.5)).is_none());
    assert_eq!(s.hit(&r, fx(0.001), Fixed::from_raw(fx(0.5).raw() + 1)).unwrap().t, fx(0.5));
    assert_eq!(s.hit(&r, fx(0.5), far()).unwrap().t, fx(1.5));
    assert_eq!(s.hit(&r, Fixed::from_raw(fx(0.5).raw() - 1), far()).unwrap().t, fx(0.5));
    assert!(s.hit(&r, fx(0.5), fx(1.5)).is_none());
    assert!(s.hit(&r, fx(1.5), far()).is_none());
    assert!(s.hit(&r, fx(0.6), fx(1.4)).is_none());
}

#[test]
fn sphere_hit_off_axis() {
    let s = Sphere::new(v(0.0, 0.0, -2.0), fx(1.0), &grey());
    let r = Ray::new(v(0.0, 0.0, 0.0), v(0.3, 0.0, -1.0));
    let rec = s.hit(&r, fx(0.001), far()).unwrap();
    let a = 1.09f64;
    let half_b = -2.0f64;
    let c = 3.0f64;
    let t = (-half_b - (half_b * half_b - a * c).sqrt()) / a;
    assert!((val(rec.t) - t).abs() < 1e-8);
    assert!((val(rec.p.x()) - 0.3 * t).abs() < 1e-8);
    assert!((val(rec.p.z()) + t).abs() < 1e-8);
    assert!((val(rec.normal.length()) - 1.0).abs() < 1e-8);
    assert!(rec.front_face);
    assert!(r.dir().dot(&rec.normal).raw() < 0);
}

#[test]
fn sphere_hit_by_a_ray_without_direction() {
    let s = Sphere::new(v(0.0, 0.0, -1.0), fx(0.5), &grey());
    let r = Ray::new(v(0.0, 0.0, 0.0), v(0.0, 0.0, 0.0));
    assert!(s.hit(&r, fx(0.001), far()).is_none());
}

#[test]
fn set_normal_face_turns_the_normal_against_the_ray() {
    let r = Ray::new(v(0.0, 0.0, 0.0), v(0.0, 0.0, -1.0));
    let mut rec = blank();
    rec.set_normal_face(&r, v(0.0, 0.0, 1.0));
    assert!(rec.front_face);
    assert_eq!(rec.normal, v(0.0, 0.0, 1.0));
    rec.set_normal_face(&r, v(0.0, 0.0, -1.0));
    assert!(!rec.front_face);
    assert_eq!(rec.normal, v(0.0, 0.0, 1.0));
    rec.set_normal_face(&r, v(1.0, 0.0, 0.0));
    assert!(!rec.front_face);
    assert_eq!(rec.normal, v(-1.0, 0.0, 0.0));
    assert_eq!(rec.p, blank().p);
    assert_eq!(rec.t, blank().t);
    assert_eq!(rec.material, blank().material);
}

#[test]
fn empty_list_is_never_hit() {
    let world: HittableList<Sphere> = HittableList::new();
    assert_eq!(world.objects.len(), 0);
    let r = Ray::new(v(0.0, 0.0, 0.0), v(0.0, 0.0, -1.0));
    assert!(world.hit(&r, fx(0.001), far()).is_none());
}

#[test]
fn list_reports_the_nearest_hit_in_any_order() {
    let near = Sphere::new(v(0.0, 0.0, -1.0), fx(0.5), &grey());
    let far_one = Sphere::new(v(0.0, 0.0, -3.0), fx(0.5), &red());
    let aside = Sphere::new(v(5.0, 0.0, -1.0), fx(0.5), &red());
    let r = Ray::new(v(0.0, 0.0, 0.0), v(0.0, 0.0, -1.0));
    let orders = [
        [near, far_one, aside],
        [near, aside, far_one],
        [far_one, near, aside],
        [far_one, aside, near],
        [aside, near, far_one],
        [aside, far_one, near],
    ];
    for order in orders {
        let mut world = HittableList::new();
        for s in order {
            world.add(s);
        }
        assert_eq!(world.objects.len(), 3);
        let rec = world.hit(&r, fx(0.001), far()).unwrap();
        assert_eq!(rec.t, fx(0.5));
        assert_eq!(rec.material, grey());
        assert_eq!(Some(rec), near.hit(&r, fx(0.001), far()));
    }
}

#[test]
fn list_keeps_the_first_of_equally_near_hits() {
    let a = Sphere::new(v(0.0, 0.0, -1.0), fx(0.5), &grey());
    let b = Sphere::new(v(0.0, 0.0, -1.0), fx(0.5), &red());
    let r = Ray::new(v(0.0, 0.0, 0.0), v(0.0, 0.0, -1.0));
    let mut world = HittableList::new();
    world.add(a);
    world.add(b);
    assert_eq!(world.hit(&r, fx(0.001), far()).unwrap().material, grey());
    let mut world = HittableList::new();
    world.add(b);
    world.add(a);
    assert_eq!(world.hit(&r, fx(0.001), far()).unwrap().material, red());
}

#[test]
fn list_respects_the_bounds() {
    let near = Sphere::new(v(0.0, 0.0, -1.0), fx(0.5), &grey());
    let far_one = Sphere::new(v(0.0, 0.0, -3.0), fx(0.5), &red());
    let mut world = HittableList::new();
    world.add(far_one);
    world.add(near);
    let r = Ray::new(v(0.0, 0.0, 0.0), v(0.0, 0.0, -1.0));
    assert_eq!(world.hit(&r, fx(1.6), far()).unwrap().t, fx(2.5));
    assert_eq!(world.hit(&r, fx(0.5), far()).unwrap().t, fx(1.5));
    assert!(world.hit(&r, fx(0.001), fx(0.5)).is_none());
    assert!(world.hit(&r, fx(3.5), far()).is_none());
    assert_eq!(world.hit(&r, fx(1.5), fx(3.0)).unwrap().t, fx(2.5));
}

#[test]
fn list_of_lists() {
    let mut inner = HittableList::new();
    inner.add(Sphere::new(v(0.0, 0.0, -3.0), fx(0.5), &red()));
    let mut other = HittableList::new();
    other.add(Sphere::new(v(0.0, 0.0, -1.0), fx(0.5), &grey()));
    let mut world = HittableList::new();
    world.add(inner);
    world.add(other);
    let r = Ray::new(v(0.0, 0.0, 0.0), v(0.0, 0.0, -1.0));
    assert_eq!(world.hit(&r, fx(0.001), far()).unwrap().material, grey());
}

#[test]
fn metal_surface_is_reported_with_its_material() {
    let mirror = Material::Metal(Metal::new(v(0.8, 0.6, 0.2), fx(0.0)));
    let s = Sphere::new(v(0.0, 0.0, -1.0), fx(0.5), &mirror);
    let r = Ray::new(v(0.0, 0.0, 0.0), v(0.0, 0.0, -1.0));
    assert_eq!(s.hit(&r, fx(0.001), far()).unwrap().material, mirror);
}

#[test]
fn lowering_the_bound_restricts_the_hit() {
    let mut world = HittableList::new();
    world.add(Sphere::new(v(0.0, 0.0, -3.0), fx(0.5), &red()));
    world.add(Sphere::new(v(0.0, 0.0, -1.0), fx(0.5), &grey()));
    world.add(Sphere::new(v(0.0, 0.0, -6.0), fx(1.0), &red()));
    let r = Ray::new(v(0.0, 0.0, 0.0), v(0.0, 0.0, -1.0));
    for t_min in [0.001, 0.5, 1.0, 1.5, 2.5, 3.5, 5.0, 7.0] {
        let whole = world.hit(&r, fx(t_min), far());
        for bound in [0.25, 0.5, 0.75, 1.5, 2.0, 2.5, 3.0, 3.5, 5.0, 6.0, 7.5, 100.0] {
            let expected = match whole {
                Some(rec) if rec.t.raw() < fx(bound).raw() => Some(rec),
                _ => None,
            };
            assert_eq!(world.hit(&r, fx(t_min), fx(bound)), expected);
        }
    }
}

#[test]
fn stored_normal_opposes_the_ray() {
    let spheres = [
        Sphere::new(v(0.0, 0.0, -1.0), fx(0.5), &grey()),
        Sphere::new(v(0.3, -0.2, -2.0), fx(1.25), &grey()),
        Sphere::new(v(0.0, 0.0, 0.0), fx(3.0), &grey()),
        Sphere::new(v(0.5, 0.5, -1.5), fx(-0.75), &grey()),
        Sphere::new(v(0.0, -100.5, -1.0), fx(100.0), &grey()),
    ];
    let mut hits = 0;
    for s in spheres {
        for k in 0..200 {
            let a = (k as f64) * 0.05;
            let r = Ray::new(v(0.1, 0.2, 0.3), v(a.sin() * 0.7, a.cos() * 0.4 - 0.2, -1.0 + 0.01 * k as f64));
            if let Some(rec) = s.hit(&r, fx(0.001), far()) {
                assert!(r.dir().dot(&rec.normal).raw() <= 0);
                assert!(fx(0.001).raw() < rec.t.raw());
                assert_eq!(rec.p, r.at(rec.t));
                assert!((val(rec.normal.length()) - 1.0).abs() < 1e-5);
                hits += 1;
            }
        }
    }
    assert!(hits > 100);
}

#[test]
fn sphere_hits_agree_with_the_real_quadratic() {
    let spheres = [
        ((0.0, 0.0, -1.0), 0.5),
        ((0.3, -0.2, -2.0), 1.25),
        ((0.0, -100.5, -1.0), 100.0),
        ((4.0, 1.0, 0.0), 1.0),
        ((0.0, -1000.0, 0.0), 1000.0),
    ];
    let mut hits = 0;
    let mut misses = 0;
    for (c, radius) in spheres {
        let s = Sphere::new(v(c.0, c.1, c.2), fx(radius), &grey());
        for k in 0..400 {
            let a = (k as f64) * 0.0173;
            let b = (k as f64) * 0.41;
            let o = (13.0 * a.cos(), 2.0 + a.sin(), 3.0 * b.sin());
            let d = (-o.0 + 2.0 * b.cos(), -o.1 + b.sin(), -o.2 + a.cos());
            let oc = (o.0 - c.0, o.1 - c.1, o.2 - c.2);
            let qa = d.0 * d.0 + d.1 * d.1 + d.2 * d.2;
            let half_b = oc.0 * d.0 + oc.1 * d.1 + oc.2 * d.2;
            let qc = oc.0 * oc.0 + oc.1 * oc.1 + oc.2 * oc.2 - radius * radius;
            let disc = half_b * half_b - qa * qc;
            if disc.abs() < 1e-3 {
                continue;
            }
            let r = Ray::new(v(o.0, o.1, o.2), v(d.0, d.1, d.2));
            let found = s.hit(&r, fx(0.001), far());
            let mut expected = None;
            if disc > 0.0 {
                let near = (-half_b - disc.sqrt()) / qa;
                let far_root = (-half_b + disc.sqrt()) / qa;
                if (near - 0.001).abs() < 1e-6 || (far_root - 0.001).abs() < 1e-6 {
                    continue;
                }
                if near > 0.001 {
                    expected = Some(near);
                } else if far_root > 0.001 {
                    expected = Some(far_root);
                }
            }
            match (found, expected) {
                (Some(rec), Some(t)) => {
                    assert!((val(rec.t) - t).abs() < 1e-5 * (1.0 + t.abs()), "{} {}", val(rec.t), t);
                    hits += 1;
                }
                (None, None) => misses += 1,
                (got, want) => panic!("{:?} {:?}", got, want),
            }
        }
    }
    assert!(hits > 100 && misses > 100);
}
