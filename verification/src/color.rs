//! Colours and their encoding as text.
use crate::fixed::Fixed;
use crate::fixed::ONE_RAW;
use crate::vec3::Vec3;
use vstd::prelude::*;

verus! {

/// An RGB colour; each channel is nominally in `[0, 1]`.
pub type Color = Vec3;

/// The decimal digits of `n` in ASCII, most significant first.
pub open spec fn decimal(n: nat) -> Seq<u8>
    decreases n,
{
    if n < 10 {
        seq![(48 + n) as u8]
    } else {
        decimal(n / 10).push((48 + n % 10) as u8)
    }
}

/// The decimal form of a signed number: a minus sign before the digits of
/// a negative one.
pub open spec fn signed_decimal(n: int) -> Seq<u8> {
    if n < 0 {
        seq![45u8] + decimal((-n) as nat)
    } else {
        decimal(n as nat)
    }
}

/// The level from 0 to 255 that encodes the channel sum `x` of
/// `samples_per_pixel` samples: the mean is clamped to `[0, 0.999]`,
/// multiplied by 256 and cut to a whole number.
pub open spec fn spec_channel(x: Fixed, samples_per_pixel: i32) -> int {
    let mean = x.spec_div(Fixed::from_int(samples_per_pixel));
    let clamped = mean.spec_clamp(Fixed::zero(), Fixed::ratio(999, 1000));
    (Fixed::from_int(256i32).spec_mul(clamped).raw / ONE_RAW) as int
}

/// The line of text that encodes a pixel: its three levels in decimal,
/// separated by spaces and ended by a line feed.
pub open spec fn pixel_line(pixel: Color, samples_per_pixel: i32) -> Seq<u8> {
    decimal(spec_channel(pixel.0, samples_per_pixel) as nat).push(32u8) + decimal(
        spec_channel(pixel.1, samples_per_pixel) as nat,
    ).push(32u8) + decimal(spec_channel(pixel.2, samples_per_pixel) as nat).push(10u8)
}

/// The three lines that open an image of the plain-text format: the magic
/// token `P3`, the width and the height, and the highest level, 255.
pub open spec fn header(width: i32, height: i32) -> Seq<u8> {
    seq![80u8, 51u8, 10u8] + signed_decimal(width as int).push(32u8) + signed_decimal(
        height as int,
    ).push(10u8) + seq![50u8, 53u8, 53u8, 10u8]
}

/// A channel level lies between 0 and 255.
pub proof fn lemma_channel_range(x: Fixed, samples_per_pixel: i32)
    ensures
        0 <= spec_channel(x, samples_per_pixel) <= 255,
{
    let mean = x.spec_div(Fixed::from_int(samples_per_pixel));
    let clamped = mean.spec_clamp(Fixed::zero(), Fixed::ratio(999, 1000));
    assert(Fixed::ratio(999, 1000).raw == 4290672328);
    assert(0 <= clamped.raw <= 4290672328);
    assert(256 * (ONE_RAW as int) == 0x100_0000_0000);
    assert(0 <= 0x100_0000_0000 * clamped.raw <= 0x100_0000_0000 * 4290672328) by (nonlinear_arith)
        requires
            0 <= clamped.raw <= 4290672328,
    ;
}

/// The level that encodes a channel sum.
pub fn channel(x: Fixed, samples_per_pixel: i32) -> (level: u8)
    ensures
        level == spec_channel(x, samples_per_pixel),
{
    proof {
        lemma_channel_range(x, samples_per_pixel);
    }
    let mean = x / Fixed::from_int(samples_per_pixel);
    let clamped = mean.clamp(Fixed::zero(), Fixed::ratio(999, 1000));
    ((Fixed::from_int(256) * clamped).raw / ONE_RAW) as u8
}

/// Appends the decimal digits of `n` to `out`.
pub fn write_decimal(out: &mut Vec<u8>, n: u32)
    ensures
        final(out)@ == old(out)@ + decimal(n as nat),
    decreases n,
{
    if n >= 10 {
        write_decimal(out, n / 10);
    }
    out.push((48 + n % 10) as u8);
    proof {
        if n < 10 {
            assert(final(out)@ == old(out)@ + decimal(n as nat));
        } else {
            assert(old(out)@ + decimal((n / 10) as nat).push((48 + n % 10) as u8) == (old(out)@
                + decimal((n / 10) as nat)).push((48 + n % 10) as u8));
        }
    }
}

/// Appends the decimal form of a signed number to `out`.
pub fn write_signed_decimal(out: &mut Vec<u8>, n: i32)
    ensures
        final(out)@ == old(out)@ + signed_decimal(n as int),
{
    if n < 0 {
        out.push(45u8);
        write_decimal(out, (-(n as i64)) as u32);
        proof {
            assert(old(out)@.push(45u8) + decimal((-n) as nat) == old(out)@ + (seq![45u8] + decimal(
                (-n) as nat,
            )));
        }
    } else {
        write_decimal(out, n as u32);
    }
}

/// Appends to `out` the line of text that encodes a pixel, given the sum
/// of its samples and their number.
pub fn write_color(out: &mut Vec<u8>, pixel: Color, samples_per_pixel: i32)
    ensures
        final(out)@ == old(out)@ + pixel_line(pixel, samples_per_pixel),
{
    let ghost start = out@;
    let red = channel(pixel.0, samples_per_pixel);
    let green = channel(pixel.1, samples_per_pixel);
    let blue = channel(pixel.2, samples_per_pixel);
    write_decimal(out, red as u32);
    out.push(32u8);
    write_decimal(out, green as u32);
    out.push(32u8);
    write_decimal(out, blue as u32);
    out.push(10u8);
    proof {
        assert(out@ == start + pixel_line(pixel, samples_per_pixel));
    }
}

/// Appends to `out` the header of an image of the given size.
pub fn write_header(out: &mut Vec<u8>, width: i32, height: i32)
    ensures
        final(out)@ == old(out)@ + header(width, height),
{
    let ghost start = out@;
    out.push(80u8);
    out.push(51u8);
    out.push(10u8);
    write_signed_decimal(out, width);
    out.push(32u8);
    write_signed_decimal(out, height);
    out.push(10u8);
    out.push(50u8);
    out.push(53u8);
    out.push(53u8);
    out.push(10u8);
    proof {
        assert(out@ == start + header(width, height));
    }
}

} // verus!
