use raytracer::camera::deg_to_rad;
use raytracer::camera::Camera;
use raytracer::camera::PI_RAW;
use raytracer::fixed::Fixed;
use raytracer::ray::Ray;
use raytracer::vec3::Vec3;

fn fx(x: f64) -> Fixed {
    Fixed::from_raw((x * 4294967296.0).round() as i64)
}

fn val(x: Fixed) -> f64 {
    x.raw() as f64 / 4294967296.0
}

fn v(x: f64, y: f64, z: f64) -> Vec3 {
    Vec3::new(fx(x), fx(y), fx(z))
}

fn close(a: Vec3, x: f64, y: f64, z: f64, eps: f64) -> bool {
    (val(a.x()) - x).abs() < eps && (val(a.y()) - y).abs() < eps && (val(a.z()) - z).abs() < eps
}

fn square_view(aperture: f64) -> Camera {
    Camera::new(
        v(0.0, 0.0, 0.0),
        v(0.0, 0.0, -1.0),
        v(0.0, 1.0, 0.0),
        fx(90.0),
        fx(2.0),
        fx(aperture),
        fx(1.0),
    )
}

#[test]
fn degrees_to_radians() {
    assert_eq!(PI_RAW, (std::f64::consts::PI * 4294967296.0).round() as i64);
    assert_eq!(deg_to_rad(fx(180.0)), Fixed::from_raw(PI_RAW));
    assert_eq!(deg_to_rad(fx(0.0)), Fixed::zero());
    assert!((val(deg_to_rad(fx(20.0))) - 20.0f64.to_radians()).abs() < 1e-9);
    assert!((val(deg_to_rad(fx(-45.0))) + 45.0f64.to_radians()).abs() < 1e-9);
}

#[test]
fn camera_frame_of_a_right_angle_view() {
    let cam = square_view(0.0);
    assert_eq!(cam.origin, v(0.0, 0.0, 0.0));
    assert_eq!(cam.w, v(0.0, 0.0, 1.0));
    assert_eq!(cam.u, v(1.0, 0.0, 0.0));
    assert_eq!(cam.v, v(0.0, 1.0, 0.0));
    assert_eq!(cam.horizontal, v(4.0, 0.0, 0.0));
    assert_eq!(cam.vertical, v(0.0, 2.0, 0.0));
    assert_eq!(cam.lower_left_corner, v(-2.0, -1.0, -1.0));
    assert_eq!(cam.lens_radius, Fixed::zero());
}

#[test]
fn camera_of_a_slanted_view() {
    let lookfrom = v(-2.0, 2.0, 1.0);
    let lookat = v(0.0, 0.0, -1.0);
    let focus = (lookfrom - lookat).length();
    let cam = Camera::new(lookfrom, lookat, v(0.0, 1.0, 0.0), fx(20.0), fx(4.0) / fx(3.0), fx(0.1), focus);
    let s = 1.0 / 3.0f64.sqrt();
    assert!(close(cam.w, -s, s, s, 1e-8));
    assert!(close(cam.u, 0.5f64.sqrt(), 0.0, 0.5f64.sqrt(), 1e-8));
    assert!((val(cam.v.length()) - 1.0).abs() < 1e-8);
    assert!(val(cam.u.dot(&cam.v)).abs() < 1e-8);
    assert!(val(cam.v.dot(&cam.w)).abs() < 1e-8);
    assert_eq!(cam.lens_radius, fx(0.1) / fx(2.0));
    let height = 2.0 * 10.0f64.to_radians().tan() * 12.0f64.sqrt();
    assert!((val(cam.vertical.length()) - height).abs() < 1e-6);
    assert!((val(cam.horizontal.length()) - height * 4.0 / 3.0).abs() < 1e-6);
    let centre = cam.get_ray_with(fx(0.5), fx(0.5), v(0.0, 0.0, 0.0));
    assert_eq!(centre.orig(), lookfrom);
    assert!(close(centre.dir(), 2.0, -2.0, -2.0, 1e-6));
}

#[test]
fn camera_needs_a_frame() {
    assert!(Camera::can_frame(v(0.0, 0.0, 0.0), v(0.0, 0.0, -1.0), v(0.0, 1.0, 0.0)));
    assert!(!Camera::can_frame(v(1.0, 2.0, 3.0), v(1.0, 2.0, 3.0), v(0.0, 1.0, 0.0)));
    assert!(!Camera::can_frame(v(0.0, 0.0, 0.0), v(0.0, -5.0, 0.0), v(0.0, 1.0, 0.0)));
    assert!(!Camera::can_frame(v(0.0, 0.0, 0.0), v(0.0, 0.0, -1.0), v(0.0, 0.0, 0.0)));
    assert!(Camera::can_frame(v(13.0, 2.0, 3.0), v(0.0, 0.0, 0.0), v(0.0, 1.0, 0.0)));
}

#[test]
fn rays_through_a_pinhole() {
    let cam = square_view(0.0);
    let disk = v(0.5, 0.25, 0.0);
    assert_eq!(cam.get_ray_with(fx(0.5), fx(0.5), disk), Ray::new(v(0.0, 0.0, 0.0), v(0.0, 0.0, -1.0)));
    assert_eq!(cam.get_ray_with(fx(0.0), fx(0.0), disk), Ray::new(v(0.0, 0.0, 0.0), v(-2.0, -1.0, -1.0)));
    assert_eq!(cam.get_ray_with(fx(1.0), fx(1.0), disk), Ray::new(v(0.0, 0.0, 0.0), v(2.0, 1.0, -1.0)));
    assert_eq!(cam.get_ray_with(fx(0.25), fx(0.75), disk), Ray::new(v(0.0, 0.0, 0.0), v(-1.0, 0.5, -1.0)));
    for _ in 0..50 {
        assert_eq!(cam.get_ray(fx(0.25), fx(0.75)), Ray::new(v(0.0, 0.0, 0.0), v(-1.0, 0.5, -1.0)));
    }
}

#[test]
fn rays_through_a_lens_meet_in_the_plane_of_focus() {
    let cam = square_view(2.0);
    assert_eq!(cam.lens_radius, fx(1.0));
    let r = cam.get_ray_with(fx(0.5), fx(0.5), v(0.5, 0.25, 0.0));
    assert_eq!(r, Ray::new(v(0.5, 0.25, 0.0), v(-0.5, -0.25, -1.0)));
    assert_eq!(r.at(fx(1.0)), v(0.0, 0.0, -1.0));
    for _ in 0..200 {
        let r = cam.get_ray(fx(0.75), fx(0.25));
        assert_eq!(r.orig().z(), Fixed::zero());
        assert!(r.orig().length_squared().raw() < 4294967296);
        assert_eq!(r.at(fx(1.0)), v(1.0, -0.5, -1.0));
    }
}

fn dot_raw(a: Vec3, b: Vec3) -> i128 {
    a.x().raw() as i128 * b.x().raw() as i128
        + a.y().raw() as i128 * b.y().raw() as i128
        + a.z().raw() as i128 * b.z().raw() as i128
}

#[test]
fn camera_frames_are_orthonormal() {
    let views = [
        (v(-2.0, 2.0, 1.0), v(0.0, 0.0, -1.0), v(0.0, 1.0, 0.0)),
        (v(13.0, 5.0, 3.0), v(0.0, 0.0, 0.0), v(0.0, 1.0, 0.0)),
        (v(0.0, 0.0, 0.0), v(0.0, 0.0, -1.0), v(0.3, 1.0, 0.2)),
        (v(1.0, 1.0, 1.0), v(-4.0, 0.5, 9.0), v(1.0, 0.0, 0.0)),
    ];
    let one = 1i128 << 64;
    let unit = 1i128 << 32;
    for (lookfrom, lookat, vup) in views {
        assert!(Camera::can_frame(lookfrom, lookat, vup));
        let cam = Camera::new(lookfrom, lookat, vup, fx(20.0), fx(1.5), fx(0.1), fx(10.0));
        assert!((dot_raw(cam.w, cam.w) - one).abs() <= 8 * unit);
        assert!((dot_raw(cam.u, cam.u) - one).abs() <= 8 * unit);
        assert!(dot_raw(cam.v, cam.w).abs() <= 3 * unit);
        assert!(dot_raw(cam.v, cam.u).abs() <= 3 * unit);
        assert!((val(cam.v.length()) - 1.0).abs() < 1e-8);
    }
}
