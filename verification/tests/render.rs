use raytracer::camera::Camera;
use raytracer::color::write_color;
use raytracer::color::write_header;
use raytracer::fixed::Fixed;
use raytracer::hittable::HittableList;
use raytracer::material::Dielectric;
use raytracer::material::Lambertian;
use raytracer::material::Material;
use raytracer::material::Metal;
use raytracer::material::ScatterSample;
use raytracer::ray::Ray;
use raytracer::render::horizon;
use raytracer::render::image_coordinate;
use raytracer::render::pixel_color;
use raytracer::render::ray_color;
use raytracer::render::ray_color_with;
use raytracer::render::sample_pixel;
use raytracer::render::shadow_guard;
use raytracer::render::sky;
use raytracer::sphere::Sphere;
use raytracer::vec3::Vec3;

fn fx(x: f64) -> Fixed {
    Fixed::from_raw((x * 4294967296.0).round() as i64)
}

fn val(x: Fixed) -> f64 {
    x.raw() as f64 / 4294967296.0
}

fn v(x: f64, y: f64, z: f64) -> Vec3 {
    Vec3::new(fx(x), fx(y), fx(z))
}

fn black() -> Vec3 {
    v(0.0, 0.0, 0.0)
}

fn blue() -> Vec3 {
    Vec3::new(Fixed::ratio(1, 2), Fixed::ratio(7, 10), Fixed::one())
}

fn two_spheres() -> HittableList<Sphere> {
    let mut world = HittableList::new();
    let ground = Material::Lambertian(Lambertian::new(v(0.8, 0.8, 0.0)));
    let centre = Material::Lambertian(Lambertian::new(v(0.1, 0.2, 0.5)));
    world.add(Sphere::new(v(0.0, -100.5, -1.0), fx(100.0), &ground));
    world.add(Sphere::new(v(0.0, 0.0, -1.0), fx(0.5), &centre));
    world
}

fn one_sphere(material: Material) -> HittableList<Sphere> {
    let mut world = HittableList::new();
    world.add(Sphere::new(v(0.0, 0.0, -1.0), fx(0.5), &material));
    world
}

fn fixed_samples(n: usize, seed: u64) -> Vec<ScatterSample> {
    let mut state = seed;
    let mut next = move || {
        state = state.wrapping_mul(6364136223846793005).wrapping_add(1442695040888963407);
        ((state >> 33) as f64) / ((1u64 << 31) as f64)
    };
    let mut samples = Vec::new();
    while samples.len() < n {
        let p = v(2.0 * next() - 1.0, 2.0 * next() - 1.0, 2.0 * next() - 1.0);
        if p.is_zero() || p.length_squared().raw() >= 4294967296 {
            continue;
        }
        samples.push(ScatterSample { direction: p.unit_vector(), offset: p, fraction: fx(next() * 0.999) });
    }
    samples
}

fn render(samples: &Vec<ScatterSample>) -> Vec<u8> {
    let world = two_spheres();
    let cam = Camera::new(
        v(0.0, 0.0, 0.0),
        v(0.0, 0.0, -1.0),
        v(0.0, 1.0, 0.0),
        fx(90.0),
        fx(1.0),
        fx(0.0),
        fx(1.0),
    );
    let mut image = Vec::new();
    for j in [1, 0] {
        for i in [0, 1] {
            let s = fx((i as f64 + 0.5) / 2.0);
            let t = fx((j as f64 + 0.5) / 2.0);
            let r = cam.get_ray_with(s, t, v(0.0, 0.0, 0.0));
            let c = ray_color_with(&r, &world, 8, samples);
            write_color(&mut image, c, 1);
        }
    }
    image
}

#[test]
fn bounds_of_the_search() {
    assert_eq!(shadow_guard().raw(), 4294967);
    assert!((val(shadow_guard()) - 0.001).abs() < 1e-9);
    assert_eq!(horizon().raw(), i64::MAX);
}

#[test]
fn sky_is_white_straight_down_and_blue_straight_up() {
    assert_eq!(sky(v(0.0, -1.0, 0.0)), v(1.0, 1.0, 1.0));
    assert_eq!(sky(v(0.0, 1.0, 0.0)), blue());
    assert_eq!(sky(v(0.0, -3.5, 0.0)), v(1.0, 1.0, 1.0));
    assert_eq!(sky(v(0.0, 250.0, 0.0)), blue());
    assert_eq!(
        sky(v(1.0, 0.0, 0.0)),
        Vec3::new(fx(0.75), Fixed::from_raw(3650722201), Fixed::one())
    );
    let nearly_up = sky(v(0.001, 1.0, 0.0));
    assert!((val(nearly_up.x()) - 0.5).abs() < 1e-6);
    assert!((val(nearly_up.y()) - 0.7).abs() < 1e-6);
    assert!((val(nearly_up.z()) - 1.0).abs() < 1e-6);
}

#[test]
fn a_ray_that_misses_everything_sees_the_sky() {
    let empty: HittableList<Sphere> = HittableList::new();
    let down = Ray::new(v(0.0, 0.0, 0.0), v(0.0, -1.0, 0.0));
    let up = Ray::new(v(0.0, 0.0, 0.0), v(0.0, 1.0, 0.0));
    assert_eq!(ray_color(&down, &empty, 50), v(1.0, 1.0, 1.0));
    assert_eq!(ray_color(&up, &empty, 50), blue());
    assert_eq!(ray_color(&up, &empty, 1), blue());
    let world = one_sphere(Material::Lambertian(Lambertian::new(v(0.1, 0.2, 0.5))));
    let away_down = Ray::new(v(0.0, 0.0, 0.0), v(0.0, -1.0, 0.0));
    let away_up = Ray::new(v(0.0, 0.0, 0.0), v(0.0, 1.0, 0.0));
    assert_eq!(ray_color(&away_down, &world, 50), v(1.0, 1.0, 1.0));
    assert_eq!(ray_color(&away_up, &world, 50), blue());
    assert_eq!(ray_color_with(&away_up, &world, 50, &Vec::new()), blue());
    let slanted = Ray::new(v(0.0, 0.0, 0.0), v(0.3, 0.4, 0.5));
    assert_eq!(ray_color(&slanted, &world, 50), sky(v(0.3, 0.4, 0.5)));
}

#[test]
fn depth_zero_is_black() {
    let world = two_spheres();
    let rays = [
        Ray::new(v(0.0, 0.0, 0.0), v(0.0, 0.0, -1.0)),
        Ray::new(v(0.0, 0.0, 0.0), v(0.0, 1.0, 0.0)),
        Ray::new(v(0.0, 0.0, 0.0), v(0.0, -1.0, 0.0)),
        Ray::new(v(0.0, 0.0, 0.0), v(0.0, 0.0, 0.0)),
    ];
    for r in rays {
        for depth in [0, -1, i32::MIN] {
            assert_eq!(ray_color(&r, &world, depth), black());
            assert_eq!(ray_color_with(&r, &world, depth, &fixed_samples(4, 1)), black());
            let empty: HittableList<Sphere> = HittableList::new();
            assert_eq!(ray_color(&r, &empty, depth), black());
        }
    }
}

#[test]
fn a_ray_without_direction_is_black() {
    let r = Ray::new(v(0.0, 0.0, 0.0), v(0.0, 0.0, 0.0));
    let empty: HittableList<Sphere> = HittableList::new();
    assert_eq!(ray_color(&r, &empty, 50), black());
    assert_eq!(ray_color(&r, &two_spheres(), 50), black());
    assert_eq!(ray_color_with(&r, &two_spheres(), 50, &fixed_samples(4, 1)), black());
}

#[test]
fn one_bounce_tints_the_sky() {
    let albedo = v(0.1, 0.2, 0.5);
    let world = one_sphere(Material::Lambertian(Lambertian::new(albedo)));
    let r = Ray::new(v(0.0, 0.0, 0.0), v(0.0, 0.0, -1.0));
    let sample = ScatterSample { direction: v(0.0, 1.0, 0.0), ..ScatterSample::plain() };
    let c = ray_color_with(&r, &world, 2, &vec![sample]);
    assert_eq!(c, albedo * sky(v(0.0, 1.0, 1.0)));
    assert_ne!(c, black());
}

#[test]
fn the_last_bounce_brings_nothing() {
    let world = one_sphere(Material::Lambertian(Lambertian::new(v(0.1, 0.2, 0.5))));
    let r = Ray::new(v(0.0, 0.0, 0.0), v(0.0, 0.0, -1.0));
    let sample = ScatterSample { direction: v(0.0, 1.0, 0.0), ..ScatterSample::plain() };
    assert_eq!(ray_color_with(&r, &world, 1, &vec![sample]), black());
    for _ in 0..50 {
        assert_eq!(ray_color(&r, &world, 1), black());
    }
}

#[test]
fn nothing_arrives_where_the_samples_run_out() {
    let world = one_sphere(Material::Lambertian(Lambertian::new(v(0.1, 0.2, 0.5))));
    let r = Ray::new(v(0.0, 0.0, 0.0), v(0.0, 0.0, -1.0));
    assert_eq!(ray_color_with(&r, &world, 5, &Vec::new()), black());
}

#[test]
fn an_absorbed_ray_is_black() {
    let world = one_sphere(Material::Metal(Metal::new(v(0.8, 0.6, 0.2), fx(1.0))));
    let r = Ray::new(v(0.0, 0.0, 0.0), v(0.0, 0.0, -1.0));
    let inward = ScatterSample { offset: v(0.0, 0.0, -0.99), ..ScatterSample::plain() };
    assert_ne!(ray_color_with(&r, &world, 5, &vec![inward]), black());
    let grazing = Ray::new(v(-5.0, 0.0, -0.5 - 1e-3), v(1.0, 0.0, 0.0));
    let c = ray_color_with(&grazing, &world, 5, &vec![ScatterSample { offset: v(0.0, 0.0, -0.9), ..ScatterSample::plain() }]);
    assert_eq!(c, black());
}

#[test]
fn a_mirror_shows_the_sky_behind_the_eye() {
    let albedo = v(0.8, 0.6, 0.2);
    let world = one_sphere(Material::Metal(Metal::new(albedo, fx(0.0))));
    let r = Ray::new(v(0.0, 0.0, 0.0), v(0.0, 0.0, -1.0));
    for _ in 0..20 {
        assert_eq!(ray_color(&r, &world, 50), albedo * sky(v(0.0, 0.0, 1.0)));
    }
}

#[test]
fn glass_passes_the_sky_behind_it() {
    let world = one_sphere(Material::Dielectric(Dielectric::new(fx(1.0))));
    let r = Ray::new(v(0.0, 0.0, 0.0), v(0.0, 0.0, -1.0));
    let through = ScatterSample { fraction: Fixed::from_raw(4294967295), ..ScatterSample::plain() };
    let c = ray_color_with(&r, &world, 5, &vec![through, through]);
    assert_eq!(c, sky(v(0.0, 0.0, -1.0)));
}

#[test]
fn radiance_stays_between_black_and_white() {
    let world = two_spheres();
    let cam = Camera::new(
        v(0.0, 0.0, 0.0),
        v(0.0, 0.0, -1.0),
        v(0.0, 1.0, 0.0),
        fx(90.0),
        fx(1.0),
        fx(0.0),
        fx(1.0),
    );
    for j in 0..4 {
        for i in 0..4 {
            let r = cam.get_ray(fx(i as f64 / 3.0), fx(j as f64 / 3.0));
            let c = ray_color(&r, &world, 10);
            for channel in [c.x(), c.y(), c.z()] {
                assert!(0 <= channel.raw() && channel.raw() <= 4294967296);
            }
        }
    }
}

#[test]
fn render_with_fixed_samples_is_repeatable() {
    let samples = fixed_samples(8, 2024);
    let first = render(&samples);
    let second = render(&samples);
    assert_eq!(first, second);
    assert_eq!(first, render(&fixed_samples(8, 2024)));
    let text = String::from_utf8(first).unwrap();
    assert_eq!(text.lines().count(), 4);
    assert!(text.lines().any(|line| line != "0 0 0"));
    for line in text.lines() {
        let levels: Vec<u32> = line.split(' ').map(|x| x.parse().unwrap()).collect();
        assert_eq!(levels.len(), 3);
        assert!(levels.iter().all(|&x| x <= 255));
    }
}

#[test]
fn image_coordinates() {
    assert_eq!(image_coordinate(0, fx(0.0), 3), fx(0.0));
    assert_eq!(image_coordinate(1, fx(0.0), 3), fx(0.5));
    assert_eq!(image_coordinate(1, fx(0.5), 3), fx(0.75));
    assert_eq!(image_coordinate(2, fx(0.0), 3), fx(1.0));
    assert_eq!(image_coordinate(399, fx(0.0), 400), fx(1.0));
    assert_eq!(image_coordinate(5, fx(0.5), 1), Fixed::from_raw(i64::MAX));
    assert_eq!(image_coordinate(0, fx(0.0), 1), fx(0.0));
}

#[test]
fn pixel_sums() {
    let empty: HittableList<Sphere> = HittableList::new();
    let cam = Camera::new(
        v(0.0, 0.0, 0.0),
        v(0.0, 0.0, -1.0),
        v(0.0, 1.0, 0.0),
        fx(90.0),
        fx(1.0),
        fx(0.0),
        fx(1.0),
    );
    assert_eq!(pixel_color(&cam, &empty, 0, 0, 2, 2, 0, 5), black());
    assert_eq!(pixel_color(&cam, &empty, 0, 0, 2, 2, -3, 5), black());
    assert_eq!(pixel_color(&cam, &empty, 0, 0, 2, 2, 7, 0), black());
    let one = sample_pixel(&cam, &empty, 1, 1, 4, 4, 5);
    for channel in [one.x(), one.y(), one.z()] {
        assert!(fx(0.5).raw() <= channel.raw() && channel.raw() <= fx(1.0).raw());
    }
    let sum = pixel_color(&cam, &empty, 1, 1, 4, 4, 10, 5);
    assert_eq!(sum.z(), fx(10.0));
    assert!(fx(5.0).raw() <= sum.x().raw() && sum.x().raw() <= fx(10.0).raw());
    assert!(fx(7.0).raw() <= sum.y().raw() && sum.y().raw() <= fx(10.0).raw());
}

#[test]
fn renders_a_small_image() {
    let mut world = two_spheres();
    world.add(Sphere::new(v(-1.0, 0.0, -1.0), fx(0.5), &Material::Dielectric(Dielectric::new(fx(1.5)))));
    world.add(Sphere::new(v(-1.0, 0.0, -1.0), fx(-0.45), &Material::Dielectric(Dielectric::new(fx(1.5)))));
    world.add(Sphere::new(v(1.0, 0.0, -1.0), fx(0.5), &Material::Metal(Metal::new(v(0.8, 0.6, 0.2), fx(0.3)))));
    let lookfrom = v(-2.0, 2.0, 1.0);
    let lookat = v(0.0, 0.0, -1.0);
    assert!(Camera::can_frame(lookfrom, lookat, v(0.0, 1.0, 0.0)));
    let cam = Camera::new(
        lookfrom,
        lookat,
        v(0.0, 1.0, 0.0),
        fx(40.0),
        fx(4.0 / 3.0),
        fx(0.01),
        (lookfrom - lookat).length(),
    );
    let (width, height, samples) = (8, 6, 4);
    let mut image = Vec::new();
    write_header(&mut image, width, height);
    for j in (0..height).rev() {
        for i in 0..width {
            let sum = pixel_color(&cam, &world, i, j, width, height, samples, 8);
            for channel in [sum.x(), sum.y(), sum.z()] {
                assert!(0 <= channel.raw() && channel.raw() <= fx(samples as f64).raw());
            }
            write_color(&mut image, sum, samples);
        }
    }
    let text = String::from_utf8(image).unwrap();
    let lines: Vec<&str> = text.lines().collect();
    assert_eq!(lines.len(), 3 + 48);
    assert_eq!(&lines[..3], ["P3", "8 6", "255"]);
    let mut lit = 0;
    for line in &lines[3..] {
        let levels: Vec<u32> = line.split(' ').map(|x| x.parse().unwrap()).collect();
        assert_eq!(levels.len(), 3);
        assert!(levels.iter().all(|&x| x <= 255));
        if levels.iter().any(|&x| x > 0) {
            lit += 1;
        }
    }
    assert!(lit > 24);
}
