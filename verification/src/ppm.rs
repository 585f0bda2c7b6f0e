//! The plain-text image format: a header, then one line of three channel
//! values per pixel.

use vstd::prelude::*;
use vstd::arithmetic::power2::*;
use vstd::arithmetic::div_mod::*;
use vstd::arithmetic::mul::*;
use crate::scalar::{lemma_quotient_of_scaled, magnitude_units, Scalar};
use crate::types::Color;

verus! {

/// Bit pattern of the largest channel intensity that is written: the
/// quantity nearest to 999 thousandths.
pub const CHANNEL_LIMIT_BITS: u32 = 0x3f7f_be77;

/// The digits of `n` in base ten, as ASCII.
pub open spec fn digits(n: nat) -> Seq<u8>
    decreases n,
{
    if n < 10 {
        seq![(48 + n) as u8]
    } else {
        digits(n / 10).push((48 + n % 10) as u8)
    }
}

/// `n` in base ten, as ASCII, with a minus sign if it is negative.
pub open spec fn decimal(n: int) -> Seq<u8> {
    if n < 0 {
        seq![45u8] + digits((-n) as nat)
    } else {
        digits(n as nat)
    }
}

/// The header of an image of the given size: the magic token, the width and
/// the height, and the largest channel value, 255.
pub open spec fn header(width: int, height: int) -> Seq<u8> {
    seq![80u8, 51u8, 10u8] + decimal(width) + seq![32u8] + decimal(height) + seq![
        10u8,
        50u8,
        53u8,
        53u8,
        10u8,
    ]
}

/// The largest channel intensity that is written.
pub open spec fn channel_limit() -> Scalar {
    Scalar { bits: CHANNEL_LIMIT_BITS }
}

/// The channel value of an intensity: the intensity is limited to the range
/// from zero to [`channel_limit`], multiplied by 256 and rounded down. (One
/// unit of a quantity is two to the power -149, so 256 times the quantity is
/// its number of units divided by two to the power 141.)
pub open spec fn channel_spec(intensity: Scalar) -> int {
    intensity.clamp_spec(Scalar::zero_spec(), channel_limit()).units() / (pow2(141) as int)
}

/// The line of a pixel: its three channel values, separated by blanks.
pub open spec fn pixel_line(color: Color) -> Seq<u8> {
    decimal(channel_spec(color.x)) + seq![32u8] + decimal(channel_spec(color.y)) + seq![32u8]
        + decimal(channel_spec(color.z)) + seq![10u8]
}

/// The lines of the given pixels, one after the other.
pub open spec fn pixel_lines(pixels: Seq<Color>) -> Seq<u8>
    decreases pixels.len(),
{
    if pixels.len() == 0 {
        Seq::empty()
    } else {
        pixel_lines(pixels.drop_last()) + pixel_line(pixels.last())
    }
}

fn push_digits(out: &mut Vec<u8>, n: u32)
    ensures
        final(out)@ == old(out)@ + digits(n as nat),
    decreases n,
{
    if n >= 10 {
        push_digits(out, n / 10);
    }
    out.push(48 + (n % 10) as u8);
    assert(out@ =~= old(out)@ + digits(n as nat));
}

fn push_decimal(out: &mut Vec<u8>, n: i32)
    ensures
        final(out)@ == old(out)@ + decimal(n as int),
{
    if n < 0 {
        out.push(45);
        let magnitude: u32 = (-(n as i64)) as u32;
        push_digits(out, magnitude);
    } else {
        push_digits(out, n as u32);
    }
    assert(out@ =~= old(out)@ + decimal(n as int));
}

/// Appends the header of an image of the given size.
pub fn write_header(writer: &mut Vec<u8>, width: i32, height: i32)
    ensures
        final(writer)@ == old(writer)@ + header(width as int, height as int),
{
    writer.push(80);
    writer.push(51);
    writer.push(10);
    push_decimal(writer, width);
    writer.push(32);
    push_decimal(writer, height);
    writer.push(10);
    writer.push(50);
    writer.push(53);
    writer.push(53);
    writer.push(10);
    assert(writer@ =~= old(writer)@ + header(width as int, height as int));
}

/// The channel value of an intensity, from 0 to 255.
pub fn channel(intensity: Scalar) -> (value: u8)
    ensures
        value == channel_spec(intensity),
{
    let limited = intensity.clamp(&Scalar::zero(), &Scalar::from_bits(CHANNEL_LIMIT_BITS));
    let bits: u32 = limited.to_bits();
    assert(bits <= CHANNEL_LIMIT_BITS);
    let exponent: u32 = bits / 0x0080_0000;
    let fraction: u32 = bits % 0x0080_0000;
    assert(limited.units() == magnitude_units(bits as int));
    if exponent < 119 {
        proof {
            lemma_pow2_pos(141);
            if exponent > 0 {
                // below two to the power 141: (2^23 + f) * 2^(e-1) < 2^24 * 2^117
                let p = pow2((exponent - 1) as nat) as int;
                lemma_pow2_pos((exponent - 1) as nat);
                if exponent < 118 {
                    lemma_pow2_strictly_increases((exponent - 1) as nat, 117);
                }
                lemma_mul_strict_inequality(0x0080_0000 + fraction, 0x0100_0000, p);
                lemma_mul_inequality(p, pow2(117) as int, 0x0100_0000);
                lemma_mul_is_commutative(p, 0x0100_0000);
                lemma_mul_is_commutative(pow2(117) as int, 0x0100_0000);
                lemma_pow2_adds(24, 117);
                lemma2_to64();
                assert(pow2(24) == 0x0100_0000);
                assert(magnitude_units(bits as int) < pow2(141));
            } else {
                lemma_pow2_strictly_increases(23, 141);
                lemma2_to64();
                assert(pow2(23) == 0x0080_0000);
            }
            lemma_basic_div(magnitude_units(bits as int), pow2(141) as int);
        }
        0
    } else {
        let mantissa: u32 = 0x0080_0000 + fraction;
        let shift: u32 = 142 - exponent;
        let mut quotient: u32 = mantissa / 0x1_0000;
        let mut k: u32 = 16;
        proof {
            lemma2_to64();
            assert(pow2(16) == 0x1_0000);
        }
        while k < shift
            invariant
                16 <= k <= shift <= 23,
                quotient == mantissa as int / (pow2(k as nat) as int),
                quotient < 256,
            decreases shift - k,
        {
            proof {
                lemma_pow2_pos(k as nat);
                lemma_pow2_unfold((k + 1) as nat);
                lemma_div_denominator(mantissa as int, pow2(k as nat) as int, 2);
                lemma_mul_is_commutative(pow2(k as nat) as int, 2);
            }
            quotient = quotient / 2;
            k += 1;
        }
        proof {
            lemma_quotient_of_scaled(mantissa as int, (exponent - 1) as nat, shift as nat);
            assert((exponent - 1) as nat + shift as nat == 141);
        }
        quotient as u8
    }
}

/// Appends the line of a pixel.
pub fn write_pixel(writer: &mut Vec<u8>, color: &Color)
    ensures
        final(writer)@ == old(writer)@ + pixel_line(*color),
{
    push_digits(writer, channel(color.x) as u32);
    writer.push(32);
    push_digits(writer, channel(color.y) as u32);
    writer.push(32);
    push_digits(writer, channel(color.z) as u32);
    writer.push(10);
    assert(writer@ =~= old(writer)@ + pixel_line(*color));
}

/// What can be written as a line of the image.
pub trait WritePPM {
    /// The bytes that are written.
    spec fn ppm(&self) -> Seq<u8>;

    fn write_ppm(&self, writer: &mut Vec<u8>)
        ensures
            final(writer)@ == old(writer)@ + self.ppm(),
    ;
}

impl WritePPM for Color {
    open spec fn ppm(&self) -> Seq<u8> {
        pixel_line(*self)
    }

    fn write_ppm(&self, writer: &mut Vec<u8>) {
        write_pixel(writer, self);
    }
}

/// Appends a whole image: the header, then the pixels in the order given,
/// which is row by row from the top.
pub fn write_image(writer: &mut Vec<u8>, width: i32, height: i32, pixels: &Vec<Color>)
    ensures
        final(writer)@ == old(writer)@ + header(width as int, height as int) + pixel_lines(
            pixels@,
        ),
{
    write_header(writer, width, height);
    let ghost start = writer@;
    let mut i: usize = 0;
    while i < pixels.len()
        invariant
            i <= pixels@.len(),
            writer@ == start + pixel_lines(pixels@.take(i as int)),
        decreases pixels@.len() - i,
    {
        proof {
            assert(pixels@.take(i + 1).drop_last() == pixels@.take(i as int));
            assert(pixels@.take(i + 1).last() == pixels@[i as int]);
        }
        pixels[i].write_ppm(writer);
        assert(writer@ =~= start + pixel_lines(pixels@.take(i + 1)));
        i += 1;
    }
    assert(pixels@.take(pixels@.len() as int) == pixels@);
}

/// A channel value is the same for an intensity at or above the limit as
/// for the limit itself, and zero for an intensity that is not above zero
/// (NaN included): what is written always lies between 0 and 255.
pub proof fn lemma_channel_range(intensity: Scalar)
    ensures
        0 <= channel_spec(intensity) <= 255,
        !Scalar::zero_spec().lt_spec(intensity) ==> channel_spec(intensity) == 0,
        !intensity.lt_spec(channel_limit()) && Scalar::zero_spec().lt_spec(intensity)
            ==> channel_spec(intensity) == 255,
{
    let limited = intensity.clamp_spec(Scalar::zero_spec(), channel_limit());
    lemma_pow2_pos(141);
    assert(magnitude_units(0) == 0);
    // the limit itself: exponent 126, so 24 significant bits shifted down by 16
    let m: int = 0x00ff_be77;
    assert(magnitude_units(CHANNEL_LIMIT_BITS as int) == m * pow2(125)) by {
        assert(CHANNEL_LIMIT_BITS as int / 0x0080_0000 == 126);
        assert(CHANNEL_LIMIT_BITS as int % 0x0080_0000 == 0x007f_be77);
    }
    lemma_quotient_of_scaled(m, 125, 16);
    lemma2_to64();
    assert(m / (pow2(16) as int) == 255);
    if limited.bits != 0 && limited.bits != CHANNEL_LIMIT_BITS {
        crate::scalar::lemma_magnitude_units_increase(
            limited.bits as int,
            CHANNEL_LIMIT_BITS as int,
        );
        lemma_div_is_ordered(
            magnitude_units(limited.bits as int),
            magnitude_units(CHANNEL_LIMIT_BITS as int),
            pow2(141) as int,
        );
        lemma_div_pos_is_pos(magnitude_units(limited.bits as int), pow2(141) as int);
    }
}

} // verus!
