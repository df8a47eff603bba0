//! Luminance: from a pixel to an intensity, and from an intensity to a glyph.
//!
//! Intensities are exact. The weights 0.2989, 0.5870 and 0.1140 / 255 are
//! held as integers over the common denominator [`INTENSITY_DENOMINATOR`], so
//! no rounding takes part in the choice of a glyph.
//!
//! This matters where a ratio falls exactly on a place of the ramp. The
//! same formula evaluated in `f64` can round such a ratio to just below the
//! place and then choose the glyph before it: the pixel (5, 0, 0) against
//! the largest intensity of (9, 0, 0) is five ninths of it, which is place
//! 5 of the ramp here, and place 4 in `f64`.

use vstd::prelude::*;
use crate::ascii::{ramp, DEFAULT};
use crate::pixel::{Pixel, PixelBuffer};

verus! {

/// The denominator of every intensity: an intensity `n` stands for the
/// rational number `n / 2_550_000`.
pub const INTENSITY_DENOMINATOR: u64 = 2_550_000;

/// The weight of the red channel: 0.2989 over the common denominator.
pub const RED_WEIGHT: u64 = 762_195;

/// The weight of the green channel: 0.5870 over the common denominator.
pub const GREEN_WEIGHT: u64 = 1_496_850;

/// The weight of the blue channel: 0.1140 / 255 over the common denominator.
pub const BLUE_WEIGHT: u64 = 1_140;

/// The intensity of a pixel, as a numerator over [`INTENSITY_DENOMINATOR`]:
/// `0.2989 * R + 0.5870 * G + (0.1140 * B) / 255`.
///
/// Only the blue term is divided by 255. Red and green enter with their
/// channel values from 0 to 255, blue with a value from 0 to 1, so blue
/// hardly weighs. Glyphs are chosen by the ratio of an intensity to the
/// largest one in the frame, and this weighting decides which glyph a pixel
/// gets; a weighting that scales all three channels alike would choose
/// other glyphs.
pub open spec fn intensity(p: Pixel) -> nat {
    (RED_WEIGHT * p.r + GREEN_WEIGHT * p.g + BLUE_WEIGHT * p.b) as nat
}

/// The largest intensity that a pixel can have.
pub open spec fn intensity_limit() -> nat {
    ((RED_WEIGHT + GREEN_WEIGHT + BLUE_WEIGHT) * 255) as nat
}

/// The largest intensity among the pixels, and zero where there are none.
pub open spec fn max_intensity(pixels: Seq<Pixel>) -> nat
    decreases pixels.len(),
{
    if pixels.len() == 0 {
        0
    } else {
        let before = max_intensity(pixels.drop_last());
        let last = intensity(pixels.last());
        if last > before {
            last
        } else {
            before
        }
    }
}

/// The place in the ramp for an intensity, given the largest intensity of
/// the frame: the ratio of the two, scaled to the ramp and rounded down,
/// and never beyond the last place. Where the largest intensity is zero
/// the ratio counts as zero.
pub open spec fn glyph_index(value: nat, maximum: nat) -> nat {
    if maximum == 0 {
        0
    } else {
        let scaled = value * (ramp().len() - 1) / (maximum as int);
        if scaled >= ramp().len() {
            (ramp().len() - 1) as nat
        } else {
            scaled as nat
        }
    }
}

/// The glyph of a pixel: blank where its alpha does not exceed the
/// threshold, and else the glyph that its intensity selects.
pub open spec fn glyph_for(p: Pixel, alpha_threshold: u8, maximum: nat) -> char {
    if p.a <= alpha_threshold {
        ' '
    } else {
        ramp()[glyph_index(intensity(p), maximum) as int]
    }
}

/// No intensity exceeds the limit.
pub proof fn lemma_intensity_bounded(p: Pixel)
    ensures
        intensity(p) <= intensity_limit(),
        intensity_limit() == 576_347_175,
{
}

/// The largest intensity of a frame is at least the intensity of each of its
/// pixels, and is the intensity of one of them unless the frame is empty.
pub proof fn lemma_max_intensity_is_maximum(pixels: Seq<Pixel>)
    ensures
        forall|i: int| 0 <= i < pixels.len() ==> intensity(#[trigger] pixels[i]) <= max_intensity(pixels),
        pixels.len() > 0 ==> exists|i: int|
            0 <= i < pixels.len() && intensity(#[trigger] pixels[i]) == max_intensity(pixels),
        pixels.len() == 0 ==> max_intensity(pixels) == 0,
        max_intensity(pixels) <= intensity_limit(),
    decreases pixels.len(),
{
    if pixels.len() > 0 {
        let front = pixels.drop_last();
        lemma_max_intensity_is_maximum(front);
        lemma_intensity_bounded(pixels.last());
        assert forall|i: int| 0 <= i < pixels.len() implies intensity(#[trigger] pixels[i])
            <= max_intensity(pixels) by {
            if i < front.len() {
                assert(pixels[i] == front[i]);
            }
        }
        if intensity(pixels.last()) > max_intensity(front) || front.len() == 0 {
            assert(intensity(pixels[pixels.len() - 1]) == max_intensity(pixels));
        } else {
            let k = choose|k: int|
                0 <= k < front.len() && intensity(#[trigger] front[k]) == max_intensity(front);
            assert(pixels[k] == front[k]);
            assert(intensity(pixels[k]) == max_intensity(pixels));
        }
    }
}

/// In a frame whose pixels are all alike, the largest intensity is that of
/// the one pixel, every pixel reaches the last place of the ramp, and, where
/// its alpha exceeds the threshold, gets the fullest glyph. The exception is
/// an intensity of zero: the ratio then counts as zero, which is the first
/// place of the ramp.
pub proof fn lemma_uniform_frame(pixels: Seq<Pixel>, p: Pixel, alpha_threshold: u8)
    requires
        pixels.len() > 0,
        forall|i: int| 0 <= i < pixels.len() ==> pixels[i] == p,
    ensures
        max_intensity(pixels) == intensity(p),
        intensity(p) > 0 ==> glyph_index(intensity(p), max_intensity(pixels)) == ramp().len() - 1,
        intensity(p) == 0 ==> glyph_index(intensity(p), max_intensity(pixels)) == 0,
        p.a > alpha_threshold ==> glyph_for(p, alpha_threshold, max_intensity(pixels)) == (if intensity(p)
            > 0 {
            ramp().last()
        } else {
            ramp().first()
        }),
{
    lemma_max_intensity_is_maximum(pixels);
    let k = choose|k: int|
        0 <= k < pixels.len() && intensity(#[trigger] pixels[k]) == max_intensity(pixels);
    assert(pixels[k] == p);
    let m = intensity(p);
    if m > 0 {
        assert((m * 9) as int / (m as int) == 9) by (nonlinear_arith)
            requires
                m > 0,
        ;
    }
}

/// The intensity of a pixel, as a numerator over [`INTENSITY_DENOMINATOR`].
pub fn get_grayscale_pixel(pixel: &Pixel) -> (value: u64)
    ensures
        value == intensity(*pixel),
        value <= intensity_limit(),
{
    RED_WEIGHT * (pixel.r as u64) + GREEN_WEIGHT * (pixel.g as u64) + BLUE_WEIGHT * (pixel.b as u64)
}

/// The largest intensity in a frame, found in one pass over its pixels; zero
/// for a frame without pixels.
pub fn max_intensity_in_frame(frame: &PixelBuffer) -> (maximum: u64)
    ensures
        maximum == max_intensity(frame@),
{
    let count: usize = frame.len();
    let mut maximum: u64 = 0;
    let mut index: usize = 0;
    while index < count
        invariant
            index <= count,
            count == frame@.len(),
            maximum == max_intensity(frame@.take(index as int)),
        decreases count - index,
    {
        let value = get_grayscale_pixel(&frame.pixel(index));
        proof {
            let seen = frame@.take(index + 1);
            assert(seen.drop_last() =~= frame@.take(index as int));
            assert(seen.last() == frame@[index as int]);
        }
        if value > maximum {
            maximum = value;
        }
        index += 1;
    }
    proof {
        assert(frame@.take(count as int) =~= frame@);
    }
    maximum
}

/// The glyph of a pixel, given the alpha threshold and the largest
/// intensity of the frame. A pixel whose alpha does not exceed the
/// threshold is blank, whatever its colour. Any other pixel gets the glyph
/// at the place of the ramp that its share of the largest intensity
/// reaches; a largest intensity of zero gives the first glyph.
pub fn get_char_for_pixel(pixel: &Pixel, alpha_threshold: u8, maximum: u64) -> (glyph: char)
    ensures
        glyph == glyph_for(*pixel, alpha_threshold, maximum as nat),
        pixel.a <= alpha_threshold ==> glyph == ' ',
{
    if pixel.a <= alpha_threshold {
        return ' ';
    }
    let value = get_grayscale_pixel(pixel);
    proof {
        lemma_intensity_bounded(*pixel);
    }
    let last: usize = DEFAULT.len() - 1;
    assert(last == 9 && value * 9 <= u64::MAX);
    let place: usize = if maximum == 0 {
        0
    } else {
        let scaled: u64 = value * (last as u64) / maximum;
        if scaled >= DEFAULT.len() as u64 {
            last
        } else {
            scaled as usize
        }
    };
    DEFAULT[place]
}

} // verus!
