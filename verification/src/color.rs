//! Gamma correction and 8-bit quantisation into a caller-owned buffer.

use vstd::prelude::*;

use crate::fx::{fits, fx_sqrt, sqrt_floor, FX_ONE};
use crate::interval::Interval;
use crate::vec3::{vfits, Vec3};

verus! {

/// The upper colour clamp: just below one, so a channel never rounds up
/// to 256.
pub const COLOR_CLAMP_MAX: i64 = 65470;

/// Gamma correction: the square root of a non-negative channel.
pub open spec fn gamma_spec(x: int) -> int {
    if x > 0 {
        sqrt_floor(x * (FX_ONE as int))
    } else {
        0
    }
}

/// A channel's 8-bit value: gamma, clamp, scale by 256.
pub open spec fn quantize_spec(x: int) -> int {
    let g = gamma_spec(x);
    let c = if g > COLOR_CLAMP_MAX as int {
        COLOR_CLAMP_MAX as int
    } else {
        g
    };
    256 * c / (FX_ONE as int)
}

/// Gamma correction of one channel.
pub fn linear_to_gamma(x: i64) -> (r: i64)
    requires
        fits(x as int),
    ensures
        r as int == gamma_spec(x as int),
        0 <= r,
        fits(r as int),
{
    if x > 0 {
        fx_sqrt(x)
    } else {
        proof {
            crate::fx::lemma_sqrt_floor(0);
        }
        0
    }
}

/// One channel's 8-bit value.
pub fn quantize_channel(x: i64) -> (r: u8)
    requires
        fits(x as int),
    ensures
        r as int == quantize_spec(x as int),
{
    let g = linear_to_gamma(x);
    let clamp_range = Interval::new(0, COLOR_CLAMP_MAX);
    let c = clamp_range.clamp(g);
    proof {
        vstd::arithmetic::div_mod::lemma_div_is_ordered(
            256 * (c as int),
            256 * (COLOR_CLAMP_MAX as int),
            FX_ONE as int,
        );
        vstd::arithmetic::div_mod::lemma_div_is_ordered(0, 256 * (c as int), FX_ONE as int);
        vstd::arithmetic::div_mod::lemma_div_of0(FX_ONE as int);
        assert(256 * (COLOR_CLAMP_MAX as int) / (FX_ONE as int) == 255) by {
            vstd::arithmetic::div_mod::lemma_fundamental_div_mod_converse(
                256 * (COLOR_CLAMP_MAX as int),
                FX_ONE as int,
                255,
                48640,
            );
        }
    }
    ((256u64 * (c as u64)) / (FX_ONE as u64)) as u8
}

/// Write one pixel's gamma-corrected colour into the RGB byte buffer.
pub fn write_color(pixel_color: Vec3, img: &mut Vec<u8>, i: usize, j: usize, width: usize,
    height: usize)
    requires
        vfits(pixel_color),
        i < width,
        j < height,
        width <= 16384,
        height <= 16384,
        old(img)@.len() == width * height * 3,
    ensures
        final(img)@.len() == old(img)@.len(),
        final(img)@[(j * width + i) * 3] as int == quantize_spec(pixel_color.x as int),
        final(img)@[(j * width + i) * 3 + 1] as int == quantize_spec(pixel_color.y as int),
        final(img)@[(j * width + i) * 3 + 2] as int == quantize_spec(pixel_color.z as int),
        forall|k: int|
            0 <= k < old(img)@.len() && !((j * width + i) * 3 <= k < (j * width + i) * 3 + 3)
                ==> final(img)@[k] == old(img)@[k],
{
    proof {
        lemma_pixel_slot(width as int, height as int, i as int, j as int);
    }
    let base = (j * width + i) * 3;
    let r = quantize_channel(pixel_color.x);
    let g = quantize_channel(pixel_color.y);
    let b = quantize_channel(pixel_color.z);
    img[base] = r;
    img[base + 1] = g;
    img[base + 2] = b;
}

/// The pixel's byte slot lies inside the buffer.
proof fn lemma_pixel_slot(width: int, height: int, i: int, j: int)
    requires
        0 <= i < width <= 16384,
        0 <= j < height <= 16384,
    ensures
        0 <= j * width,
        0 <= (j * width + i) * 3,
        (j * width + i) * 3 + 3 <= width * height * 3,
        width * height * 3 <= 0x30000000,
{
    assert(width * height * 3 <= 0x30000000) by (nonlinear_arith)
        requires
            0 < width <= 16384,
            0 < height <= 16384,
    ;
    assert(0 <= j * width) by (nonlinear_arith)
        requires
            0 <= j,
            0 < width,
    ;
    assert(0 <= j * width + i && (j * width + i) + 1 <= width * height) by (nonlinear_arith)
        requires
            0 <= i < width,
            0 <= j < height,
    ;
    assert((j * width + i) * 3 + 3 <= width * height * 3) by (nonlinear_arith)
        requires
            (j * width + i) + 1 <= width * height,
            0 <= j * width + i,
    ;
}

} // verus!
