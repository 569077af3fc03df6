use raytracer::color::channel;
use raytracer::color::write_color;
use raytracer::color::write_decimal;
use raytracer::color::write_header;
use raytracer::color::write_signed_decimal;
use raytracer::color::Color;
use raytracer::fixed::Fixed;
use raytracer::vec3::Vec3;

fn fx(x: f64) -> Fixed {
    Fixed::from_raw((x * 4294967296.0).round() as i64)
}

fn text(bytes: Vec<u8>) -> String {
    String::from_utf8(bytes).unwrap()
}

#[test]
fn channel_levels() {
    assert_eq!(channel(fx(0.0), 1), 0);
    assert_eq!(channel(fx(1.0), 1), 255);
    assert_eq!(channel(fx(0.5), 1), 128);
    assert_eq!(channel(fx(0.25), 1), 64);
    assert_eq!(channel(fx(0.999), 1), 255);
    assert_eq!(channel(fx(0.99), 1), 253);
    assert_eq!(channel(fx(-0.5), 1), 0);
    assert_eq!(channel(fx(7.0), 1), 255);
    assert_eq!(channel(Fixed::from_raw(i64::MAX), 1), 255);
    assert_eq!(channel(Fixed::from_raw(i64::MIN), 1), 0);
    assert_eq!(channel(Fixed::from_raw(16777215), 1), 0);
    assert_eq!(channel(Fixed::from_raw(16777216), 1), 1);
}

#[test]
fn channel_is_the_mean_of_the_samples() {
    assert_eq!(channel(fx(50.0), 100), 128);
    assert_eq!(channel(fx(100.0), 100), 255);
    assert_eq!(channel(fx(25.0), 100), 64);
    assert_eq!(channel(fx(3.0), 4), 192);
    assert_eq!(channel(fx(0.5), -1), 0);
    assert_eq!(channel(fx(-0.5), -1), 128);
}

#[test]
fn channel_of_no_samples() {
    assert_eq!(channel(fx(0.5), 0), 255);
    assert_eq!(channel(fx(0.0), 0), 0);
    assert_eq!(channel(fx(-0.5), 0), 0);
}

#[test]
fn pixel_lines() {
    let mut out = Vec::new();
    write_color(&mut out, Vec3::new(fx(1.0), fx(0.5), fx(0.0)), 1);
    assert_eq!(text(out), "255 128 0\n");
    let mut out = Vec::new();
    let pixel: Color = Vec3::new(fx(10.0), fx(99.0), fx(150.0));
    write_color(&mut out, pixel, 100);
    assert_eq!(text(out), "25 253 255\n");
}

#[test]
fn pixel_lines_are_appended() {
    let mut out = b"P3\n".to_vec();
    write_color(&mut out, Vec3::new(fx(0.0), fx(0.0), fx(0.0)), 10);
    write_color(&mut out, Vec3::new(fx(10.0), fx(5.0), fx(2.5)), 10);
    assert_eq!(text(out), "P3\n0 0 0\n255 128 64\n");
}

#[test]
fn headers() {
    let mut out = Vec::new();
    write_header(&mut out, 800, 600);
    assert_eq!(text(out), "P3\n800 600\n255\n");
    let mut out = Vec::new();
    write_header(&mut out, 2, 2);
    assert_eq!(text(out), "P3\n2 2\n255\n");
    let mut out = b"# ".to_vec();
    write_header(&mut out, 0, -5);
    assert_eq!(text(out), "# P3\n0 -5\n255\n");
}

#[test]
fn decimals() {
    for n in [0u32, 7, 9, 10, 11, 99, 100, 255, 4096, 1_000_000, u32::MAX] {
        let mut out = Vec::new();
        write_decimal(&mut out, n);
        assert_eq!(text(out), format!("{}", n));
    }
    for n in [0i32, -1, 1, -10, 225, i32::MAX, i32::MIN] {
        let mut out = Vec::new();
        write_signed_decimal(&mut out, n);
        assert_eq!(text(out), format!("{}", n));
    }
}
