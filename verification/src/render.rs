//! The radiance integrator: from a ray to the colour that arrives along it.
use crate::camera::Camera;
use crate::color::Color;
use crate::fixed::Fixed;
use crate::fixed::ONE_RAW;
use crate::hittable::Hittable;
use crate::hittable::HittableList;
use crate::material::ScatterSample;
use crate::ray::Ray;
use crate::sphere::Sphere;
use crate::vec3::is_unit_sample;
use crate::vec3::random_f64;
use crate::vec3::Vec3;
use vstd::prelude::*;

verus! {

/// No light.
pub open spec fn black() -> Color {
    Vec3(Fixed::zero(), Fixed::zero(), Fixed::zero())
}

/// The nearest distance at which a ray may hit a surface again, one
/// thousandth.  It keeps a scattered ray from hitting, by rounding, the
/// surface that it has just left.
pub open spec fn spec_shadow_guard() -> Fixed {
    Fixed::ratio(1, 1000)
}

/// The farthest distance at which a ray may hit a surface: the largest
/// representable value.
pub open spec fn spec_horizon() -> Fixed {
    Fixed { raw: i64::MAX }
}

/// The colour of the sky in direction `dir`: a blend of white, straight
/// down, and light blue, straight up, by the height of the unit direction.
pub open spec fn spec_sky(dir: Vec3) -> Color {
    let unit_dir = dir.spec_unit_vector();
    let t = Fixed::ratio(1, 2).spec_mul(unit_dir.1.spec_add(Fixed::one()));
    Vec3(Fixed::one(), Fixed::one(), Fixed::one()).scale(Fixed::one().spec_sub(t)).spec_add(
        Vec3(Fixed::ratio(1, 2), Fixed::ratio(7, 10), Fixed::one()).scale(t),
    )
}

/// The colour that arrives along `r` after at most `depth` bounces, where
/// the `k`-th scattering on the way uses the `k`-th of `samples`.
///
/// With no bounce left, or along a ray without direction, nothing arrives.
/// A ray that misses every surface sees the sky.  A ray that hits a surface
/// is scattered by its material: absorbed, it brings nothing; else it
/// brings what arrives along the scattered ray with one bounce fewer,
/// tinted by the attenuation.  Nothing arrives where the samples run out.
pub open spec fn spec_ray_color_with<H: Hittable>(
    r: &Ray,
    world: &H,
    depth: int,
    samples: Seq<ScatterSample>,
) -> Color
    decreases depth,
{
    if depth <= 0 || r.dir.is_zero() {
        black()
    } else {
        match world.spec_hit(r, spec_shadow_guard(), spec_horizon()) {
            None => spec_sky(r.dir),
            Some(rec) => if samples.len() == 0 {
                black()
            } else {
                match rec.material.spec_scatter_with(r, &rec, &samples[0]) {
                    None => black(),
                    Some(scattered) => rec.material.spec_attenuation().spec_mul(
                        spec_ray_color_with(&scattered, world, depth - 1, samples.skip(1)),
                    ),
                }
            },
        }
    }
}

/// Every sample of the sequence is valid.
pub open spec fn all_valid(samples: Seq<ScatterSample>) -> bool {
    forall|i: int| 0 <= i < samples.len() ==> (#[trigger] samples[i]).valid()
}

/// `c` is a colour that may arrive along `r` after at most `depth`
/// bounces: the one that some valid samples, one for each bounce, give.
pub open spec fn is_radiance<H: Hittable>(r: &Ray, world: &H, depth: int, c: Color) -> bool {
    exists|samples: Seq<ScatterSample>| #[trigger]
        all_valid(samples) && samples.len() >= depth && c == spec_ray_color_with(
            r,
            world,
            depth,
            samples,
        )
}

/// Every channel of the colour lies between zero and one.
pub open spec fn in_gamut(c: Color) -> bool {
    &&& 0 <= c.0.raw <= ONE_RAW
    &&& 0 <= c.1.raw <= ONE_RAW
    &&& 0 <= c.2.raw <= ONE_RAW
}

/// No surface of the world brightens the light that it scatters: the
/// attenuation of every material that a hit reports is in gamut.
pub open spec fn never_brightens<H: Hittable>(world: &H) -> bool {
    forall|r: Ray, t_min: Fixed, t_max: Fixed|
        (#[trigger] world.spec_hit(&r, t_min, t_max)) matches Some(rec) ==> in_gamut(
            rec.material.spec_attenuation(),
        )
}

/// The product of two values of `[0, 1]` lies in `[0, 1]` and does not
/// exceed either.
pub proof fn lemma_product_in_unit(a: Fixed, b: Fixed)
    requires
        0 <= a.raw <= ONE_RAW,
        0 <= b.raw <= ONE_RAW,
    ensures
        0 <= a.spec_mul(b).raw <= b.raw,
        a.spec_mul(b).raw <= a.raw,
{
    let one = ONE_RAW as int;
    assert(0 <= a.raw * b.raw <= one * b.raw && a.raw * b.raw <= a.raw * one) by (nonlinear_arith)
        requires
            0 <= a.raw <= one,
            0 <= b.raw <= one,
    ;
    vstd::arithmetic::div_mod::lemma_div_pos_is_pos(a.raw * b.raw, one);
    vstd::arithmetic::div_mod::lemma_div_is_ordered(a.raw * b.raw, one * b.raw, one);
    vstd::arithmetic::div_mod::lemma_div_is_ordered(a.raw * b.raw, a.raw * one, one);
    vstd::arithmetic::div_mod::lemma_div_by_multiple(b.raw as int, one);
    vstd::arithmetic::div_mod::lemma_div_by_multiple(a.raw as int, one);
    assert(one * b.raw == b.raw * one) by (nonlinear_arith);
}

/// The sky is in gamut in every direction.
pub proof fn lemma_sky_in_gamut(dir: Vec3)
    requires
        dir.spec_length().raw > 0,
    ensures
        in_gamut(spec_sky(dir)),
{
    let one = Fixed::one();
    crate::accuracy::lemma_unit_vector_bounded(dir);
    let unit_dir = dir.spec_unit_vector();
    let half = Fixed::ratio(1, 2);
    assert(half.raw == 0x8000_0000);
    assert(Fixed::ratio(7, 10).raw == 3006477107);
    let lift = unit_dir.1.spec_add(one);
    assert(0 <= lift.raw <= 2 * ONE_RAW);
    let t = half.spec_mul(lift);
    assert(0 <= t.raw <= ONE_RAW) by {
        assert(0 <= half.raw * lift.raw <= 0x8000_0000 * (2 * ONE_RAW)) by (nonlinear_arith)
            requires
                half.raw == 0x8000_0000,
                0 <= lift.raw <= 2 * ONE_RAW,
        ;
        vstd::arithmetic::div_mod::lemma_div_pos_is_pos(half.raw * lift.raw, ONE_RAW as int);
        vstd::arithmetic::div_mod::lemma_div_is_ordered(
            half.raw * lift.raw,
            0x8000_0000 * (2 * ONE_RAW),
            ONE_RAW as int,
        );
    }
    let rest = one.spec_sub(t);
    assert(rest.raw == ONE_RAW - t.raw);
    lemma_product_in_unit(one, rest);
    assert(one.spec_mul(rest) == rest) by {
        assert(ONE_RAW * rest.raw == rest.raw * ONE_RAW) by (nonlinear_arith);
        crate::fixed::lemma_exact_quotient(rest.raw as int, ONE_RAW as int);
    }
    lemma_product_in_unit(half, t);
    lemma_product_in_unit(Fixed::ratio(7, 10), t);
    lemma_product_in_unit(one, t);
}

/// Light is never gained on the way: in a world that never brightens,
/// the colour that arrives along any ray is in gamut, whatever the
/// samples.
pub proof fn lemma_radiance_in_gamut<H: Hittable>(
    r: &Ray,
    world: &H,
    depth: int,
    samples: Seq<ScatterSample>,
)
    requires
        never_brightens(world),
    ensures
        in_gamut(spec_ray_color_with(r, world, depth, samples)),
    decreases depth,
{
    if depth <= 0 || r.dir.is_zero() {
    } else {
        r.dir.lemma_length_positive();
        match world.spec_hit(r, spec_shadow_guard(), spec_horizon()) {
            None => {
                lemma_sky_in_gamut(r.dir);
            },
            Some(rec) => {
                if samples.len() > 0 {
                    match rec.material.spec_scatter_with(r, &rec, &samples[0]) {
                        None => {},
                        Some(scattered) => {
                            lemma_radiance_in_gamut(&scattered, world, depth - 1, samples.skip(1));
                            let tint = rec.material.spec_attenuation();
                            let incoming = spec_ray_color_with(
                                &scattered,
                                world,
                                depth - 1,
                                samples.skip(1),
                            );
                            assert(in_gamut(tint));
                            lemma_product_in_unit(tint.0, incoming.0);
                            lemma_product_in_unit(tint.1, incoming.1);
                            lemma_product_in_unit(tint.2, incoming.2);
                        },
                    }
                }
            },
        }
    }
}

/// A collection of spheres whose materials all attenuate within gamut
/// never brightens.
pub proof fn lemma_spheres_never_brighten(world: &HittableList<Sphere>)
    requires
        forall|i: int|
            0 <= i < world.objects@.len() ==> in_gamut(
                (#[trigger] world.objects@[i]).material.spec_attenuation(),
            ),
    ensures
        never_brightens(world),
{
    assert forall|r: Ray, t_min: Fixed, t_max: Fixed|
        (#[trigger] world.spec_hit(&r, t_min, t_max)) matches Some(rec) ==> in_gamut(
            rec.material.spec_attenuation(),
        ) by {
        HittableList::<Sphere>::lemma_closest_is_nearest(world.objects@, &r, t_min, t_max);
        if let Some(rec) = world.spec_hit(&r, t_min, t_max) {
            let k = choose|k: int|
                HittableList::<Sphere>::is_nearest(world.objects@, &r, t_min, t_max, k, rec);
            assert(rec.material == world.objects@[k].material);
        }
    }
}

/// Whatever `ray_color` returns in a world that never brightens is in
/// gamut.
pub proof fn lemma_is_radiance_in_gamut<H: Hittable>(r: &Ray, world: &H, depth: int, c: Color)
    requires
        never_brightens(world),
        is_radiance(r, world, depth, c),
    ensures
        in_gamut(c),
{
    let samples = choose|samples: Seq<ScatterSample>| #[trigger]
        all_valid(samples) && samples.len() >= depth && c == spec_ray_color_with(
            r,
            world,
            depth,
            samples,
        );
    lemma_radiance_in_gamut(r, world, depth, samples);
}

/// Straight down the sky is white, and straight up it is light blue.
pub proof fn lemma_sky_at_the_poles(height: Fixed)
    requires
        0 < height.raw < i64::MAX,
    ensures
        spec_sky(Vec3(Fixed::zero(), height.spec_neg(), Fixed::zero())) == Vec3(
            Fixed::one(),
            Fixed::one(),
            Fixed::one(),
        ),
        spec_sky(Vec3(Fixed::zero(), height, Fixed::zero())) == Vec3(
            Fixed::ratio(1, 2),
            Fixed::ratio(7, 10),
            Fixed::one(),
        ),
{
    let one = ONE_RAW as int;
    let h = height.raw as int;
    let up = Vec3(Fixed::zero(), height, Fixed::zero());
    let down = Vec3(Fixed::zero(), height.spec_neg(), Fixed::zero());
    assert(up.dot_raw(up) == h * h && down.dot_raw(down) == h * h) by (nonlinear_arith)
        requires
            up.dot_raw(up) == 0 * 0 + h * h + 0 * 0,
            down.dot_raw(down) == 0 * 0 + (-h) * (-h) + 0 * 0,
    ;
    assert((h + 1) * (h + 1) > h * h) by (nonlinear_arith)
        requires
            h > 0,
    ;
    crate::fixed::lemma_isqrt_is(h * h, h);
    assert(up.spec_length() == height && down.spec_length() == height);
    crate::fixed::lemma_exact_quotient(one, h);
    crate::fixed::lemma_exact_quotient(-one, h);
    assert(h * one == one * h && (-h) * one == (-one) * h) by (nonlinear_arith);
    assert(0 * one == 0) by (nonlinear_arith);
    assert(up.spec_unit_vector() == Vec3(Fixed::zero(), Fixed::one(), Fixed::zero()));
    assert(down.spec_unit_vector() == Vec3(Fixed::zero(), Fixed::one().spec_neg(), Fixed::zero()));
    let half = Fixed::ratio(1, 2);
    assert(half.raw == 0x8000_0000);
    assert(Fixed::ratio(7, 10).raw == 3006477107);
    assert(half.spec_mul(Fixed::one().spec_add(Fixed::one())) == Fixed::one());
    assert(half.spec_mul(Fixed::one().spec_neg().spec_add(Fixed::one())) == Fixed::zero()) by {
        assert(half.raw * 0 == 0) by (nonlinear_arith);
    }
    let white = Vec3(Fixed::one(), Fixed::one(), Fixed::one());
    let blue = Vec3(half, Fixed::ratio(7, 10), Fixed::one());
    assert(white.scale(Fixed::one()) == white);
    assert(white.scale(Fixed::zero()) == black()) by {
        assert(one * 0 == 0) by (nonlinear_arith);
    }
    assert(blue.scale(Fixed::zero()) == black()) by {
        assert(half.raw * 0 == 0 && Fixed::ratio(7, 10).raw * 0 == 0 && one * 0 == 0)
            by (nonlinear_arith);
    }
    assert(blue.scale(Fixed::one()) == blue) by {
        crate::fixed::lemma_exact_quotient(half.raw as int, one);
        crate::fixed::lemma_exact_quotient(Fixed::ratio(7, 10).raw as int, one);
        crate::fixed::lemma_exact_quotient(one, one);
    }
}

/// The nearest distance at which a ray may hit a surface again.
#[verifier::when_used_as_spec(spec_shadow_guard)]
pub fn shadow_guard() -> (t: Fixed)
    ensures
        t == spec_shadow_guard(),
{
    Fixed::ratio(1, 1000)
}

/// The farthest distance at which a ray may hit a surface.
#[verifier::when_used_as_spec(spec_horizon)]
pub fn horizon() -> (t: Fixed)
    ensures
        t == spec_horizon(),
{
    Fixed::from_raw(i64::MAX)
}

/// The colour of the sky in a direction.
#[verifier::when_used_as_spec(spec_sky)]
pub fn sky(dir: Vec3) -> (c: Color)
    requires
        dir.spec_length().raw > 0,
    ensures
        c == spec_sky(dir),
{
    let unit_dir = dir.unit_vector();
    let t: Fixed = Fixed::ratio(1, 2) * (unit_dir.y() + Fixed::one());
    (Fixed::one() - t) * Color::default() + t * Color::new(
        Fixed::ratio(1, 2),
        Fixed::ratio(7, 10),
        Fixed::one(),
    )
}

/// The colour that arrives along `r`, with the samples from position
/// `from` on in place of random ones.
fn ray_color_from<H: Hittable>(
    r: &Ray,
    world: &H,
    depth: i32,
    samples: &Vec<ScatterSample>,
    from: usize,
) -> (c: Color)
    requires
        from <= samples.len(),
    ensures
        c == spec_ray_color_with(r, world, depth as int, samples@.skip(from as int)),
    decreases depth,
{
    if depth <= 0 {
        return Vec3(Fixed::zero(), Fixed::zero(), Fixed::zero());
    }
    if r.dir.is_zero() {
        return Vec3(Fixed::zero(), Fixed::zero(), Fixed::zero());
    }
    if let Some(rec) = world.hit(r, shadow_guard(), horizon()) {
        if from >= samples.len() {
            return Vec3(Fixed::zero(), Fixed::zero(), Fixed::zero());
        }
        proof {
            assert(samples@.skip(from as int)[0] == samples@[from as int]);
            assert(samples@.skip(from as int).skip(1) == samples@.skip(from + 1));
        }
        if let Some(scattered) = rec.material.scatter_with(r, &rec, &samples[from]) {
            let incoming = ray_color_from(&scattered, world, depth - 1, samples, from + 1);
            return rec.material.attenuation() * incoming;
        }
        return Color::new(Fixed::zero(), Fixed::zero(), Fixed::zero());
    }
    sky(r.dir)
}

/// The colour that arrives along `r` from the scene `world` after at most
/// `depth` bounces, with the given samples in place of random ones: the
/// `k`-th scattering on the way uses the `k`-th sample.
pub fn ray_color_with<H: Hittable>(
    r: &Ray,
    world: &H,
    depth: i32,
    samples: &Vec<ScatterSample>,
) -> (c: Color)
    ensures
        c == spec_ray_color_with(r, world, depth as int, samples@),
{
    proof {
        assert(samples@.skip(0) == samples@);
    }
    ray_color_from(r, world, depth, samples, 0)
}

/// The colour that arrives along `r` from the scene `world`, following the
/// light for at most `depth` bounces.
#[inline]
pub fn ray_color<H: Hittable>(r: &Ray, world: &H, depth: i32) -> (c: Color)
    ensures
        is_radiance(r, world, depth as int, c),
        depth <= 0 || r.dir.is_zero() ==> c == black(),
        depth > 0 && !r.dir.is_zero() && world.spec_hit(r, spec_shadow_guard(), spec_horizon())
            is None ==> c == spec_sky(r.dir),
    decreases depth,
{
    let ghost plain = Seq::new(
        (if depth > 0 {
            depth as nat
        } else {
            0nat
        }),
        |i: int| ScatterSample::plain(),
    );
    proof {
        ScatterSample::lemma_plain_valid();
        assert(all_valid(plain));
    }
    if depth <= 0 {
        proof {
            assert(black() == spec_ray_color_with(r, world, depth as int, plain));
        }
        return Vec3(Fixed::zero(), Fixed::zero(), Fixed::zero());
    }
    if r.dir.is_zero() {
        proof {
            assert(black() == spec_ray_color_with(r, world, depth as int, plain));
        }
        return Vec3(Fixed::zero(), Fixed::zero(), Fixed::zero());
    }
    if let Some(rec) = world.hit(r, shadow_guard(), horizon()) {
        let mut attenuation = Color::default();

        if let Some(scattered) = rec.material.scatter(r, &rec, &mut attenuation) {
            let incoming = ray_color(&scattered, world, depth - 1);
            let c = attenuation * incoming;
            proof {
                let first = choose|sample: ScatterSample| #[trigger]
                    sample.valid() && Some(scattered) == rec.material.spec_scatter_with(
                        r,
                        &rec,
                        &sample,
                    );
                let rest = choose|samples: Seq<ScatterSample>| #[trigger]
                    all_valid(samples) && samples.len() >= depth - 1 && incoming
                        == spec_ray_color_with(&scattered, world, depth - 1, samples);
                let samples = seq![first] + rest;
                assert(samples[0] == first);
                assert(samples.skip(1) == rest);
                assert(all_valid(samples)) by {
                    assert forall|i: int| 0 <= i < samples.len() implies (
                    #[trigger] samples[i]).valid() by {
                        if i > 0 {
                            assert(samples[i] == rest[i - 1]);
                        }
                    }
                }
                assert(c == spec_ray_color_with(r, world, depth as int, samples));
            }
            return c;
        }
        proof {
            let first = choose|sample: ScatterSample| #[trigger]
                sample.valid() && None::<Ray> == rec.material.spec_scatter_with(r, &rec, &sample);
            let samples = seq![first] + plain;
            assert(samples[0] == first);
            assert(all_valid(samples)) by {
                assert forall|i: int| 0 <= i < samples.len() implies (#[trigger] samples[i]).valid() by {
                    if i > 0 {
                        assert(samples[i] == plain[i - 1]);
                    }
                }
            }
            assert(black() == spec_ray_color_with(r, world, depth as int, samples));
        }
        return Color::new(Fixed::zero(), Fixed::zero(), Fixed::zero());
    }
    let c = sky(r.dir);
    proof {
        assert(c == spec_ray_color_with(r, world, depth as int, plain));
    }
    c
}

/// The image coordinate of a sample: the index of its pixel plus the jitter
/// inside the pixel, as a share of the extent of the image less one.
pub open spec fn spec_image_coordinate(index: i32, jitter: Fixed, extent: i32) -> Fixed {
    Fixed::from_int(index).spec_add(jitter).spec_div(
        Fixed::from_int(extent).spec_sub(Fixed::one()),
    )
}

/// `c` is a colour that one sample of the pixel `(i, j)` may have: what
/// may arrive along a ray that the camera sends through a jittered point
/// of the pixel.
pub open spec fn is_pixel_sample<H: Hittable>(
    cam: &Camera,
    world: &H,
    i: i32,
    j: i32,
    width: i32,
    height: i32,
    max_depth: i32,
    c: Color,
) -> bool {
    exists|du: Fixed, dv: Fixed, disk: Vec3|
        #![trigger cam.spec_get_ray_with(spec_image_coordinate(i, du, width), spec_image_coordinate(j, dv, height), disk)]
        is_unit_sample(du) && is_unit_sample(dv) && disk.in_unit_disk() && is_radiance(
            &cam.spec_get_ray_with(
                spec_image_coordinate(i, du, width),
                spec_image_coordinate(j, dv, height),
                disk,
            ),
            world,
            max_depth as int,
            c,
        )
}

/// The sum of a sequence of colours, added from the first to the last.
pub open spec fn sum_of(colors: Seq<Color>) -> Color
    decreases colors.len(),
{
    if colors.len() == 0 {
        black()
    } else {
        sum_of(colors.drop_last()).spec_add(colors.last())
    }
}

/// `sum` is what the samples of the pixel `(i, j)` may add up to.
pub open spec fn is_pixel_sum<H: Hittable>(
    cam: &Camera,
    world: &H,
    i: i32,
    j: i32,
    width: i32,
    height: i32,
    samples_per_pixel: i32,
    max_depth: i32,
    sum: Color,
) -> bool {
    exists|colors: Seq<Color>| #[trigger]
        sum_of(colors) == sum && colors.len() == (if samples_per_pixel > 0 {
            samples_per_pixel as int
        } else {
            0
        }) && forall|k: int|
            0 <= k < colors.len() ==> is_pixel_sample(
                cam,
                world,
                i,
                j,
                width,
                height,
                max_depth,
                #[trigger] colors[k],
            )
}

/// The image coordinate of a sample.
#[verifier::when_used_as_spec(spec_image_coordinate)]
pub fn image_coordinate(index: i32, jitter: Fixed, extent: i32) -> (x: Fixed)
    ensures
        x == spec_image_coordinate(index, jitter, extent),
{
    (Fixed::from_int(index) + jitter) / (Fixed::from_int(extent) - Fixed::one())
}

/// The colour of one random sample of the pixel `(i, j)` of an image of
/// `width` by `height` pixels.
pub fn sample_pixel<H: Hittable>(
    cam: &Camera,
    world: &H,
    i: i32,
    j: i32,
    width: i32,
    height: i32,
    max_depth: i32,
) -> (c: Color)
    ensures
        is_pixel_sample(cam, world, i, j, width, height, max_depth, c),
{
    let du = random_f64();
    let dv = random_f64();
    let disk = Vec3::random_in_unit_disk();
    let u = image_coordinate(i, du, width);
    let v = image_coordinate(j, dv, height);
    let r = cam.get_ray_with(u, v, disk);
    ray_color(&r, world, max_depth)
}

/// The sum of `samples_per_pixel` random samples of the pixel `(i, j)`.
/// The colour of the pixel is their mean.
pub fn pixel_color<H: Hittable>(
    cam: &Camera,
    world: &H,
    i: i32,
    j: i32,
    width: i32,
    height: i32,
    samples_per_pixel: i32,
    max_depth: i32,
) -> (sum: Color)
    ensures
        is_pixel_sum(cam, world, i, j, width, height, samples_per_pixel, max_depth, sum),
{
    let mut pixel_color = Color::new(Fixed::zero(), Fixed::zero(), Fixed::zero());
    let ghost mut colors: Seq<Color> = Seq::empty();
    let mut k: i32 = 0;
    while k < samples_per_pixel
        invariant
            0 <= k,
            k <= samples_per_pixel || k == 0,
            colors.len() == k,
            pixel_color == sum_of(colors),
            forall|n: int|
                0 <= n < colors.len() ==> is_pixel_sample(
                    cam,
                    world,
                    i,
                    j,
                    width,
                    height,
                    max_depth,
                    #[trigger] colors[n],
                ),
        decreases samples_per_pixel - k,
    {
        let c = sample_pixel(cam, world, i, j, width, height, max_depth);
        pixel_color.add_assign(c);
        proof {
            let ghost before = colors;
            colors = colors.push(c);
            assert(colors.drop_last() == before);
            assert(colors.last() == c);
        }
        k = k + 1;
    }
    proof {
        assert(sum_of(colors) == pixel_color);
    }
    pixel_color
}

} // verus!
