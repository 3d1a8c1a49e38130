//! Conversion of accumulated sample colors to output bytes: gamma
//! correction (square root, gamma two), clamping to just below one, and
//! scaling to a byte.

use vstd::prelude::*;

verus! {

use crate::fixed::{fx_sqrt, fx_sqrt_s, floor_div, FX_ONE};
use crate::vec3::Vec3;
use crate::interval::{Interval, clamp_s};

/// The clamp ceiling: just under one, so a full channel still maps to
/// the top byte.
pub const INTENSITY_MAX: i64 = 65470;

/// Gamma correction with gamma two: the square root of a positive
/// channel, zero otherwise.
pub open spec fn gamma_s(c: int) -> int {
    if c > 0 {
        fx_sqrt_s(c)
    } else {
        0
    }
}

/// The emitted byte of one channel: gamma-correct, clamp into
/// `[0, 0.999]`, scale by 256 and truncate.
pub open spec fn byte_s(c: int) -> int {
    floor_div(256 * clamp_s((Interval { min: 0, max: INTENSITY_MAX }), gamma_s(c)), 65536)
}

/// Gamma correction with gamma two.
pub fn linear_to_gamma(linear_component: i64) -> (r: i64)
    ensures
        r as int == gamma_s(linear_component as int),
        r >= 0,
{
    if linear_component > 0 {
        fx_sqrt(linear_component)
    } else {
        0
    }
}

/// The emitted byte of one channel.
fn channel_byte(c: i64) -> (r: u8)
    ensures
        r as int == byte_s(c as int),
{
    let g = linear_to_gamma(c);
    let intensity = Interval::from_range(0, INTENSITY_MAX);
    let clamped = intensity.clamp(g);
    let scaled: u64 = (256 * clamped) as u64;
    let b: u64 = scaled / 65536;
    proof {
        vstd::arithmetic::div_mod::lemma_div_is_ordered(
            scaled as int, 256 * (INTENSITY_MAX as int), 65536);
    }
    b as u8
}

/// The three bytes the pixel sink writes for this color, in red, green,
/// blue order.
pub fn write_color(pixel_color: &Vec3) -> (r: (u8, u8, u8))
    ensures
        r.0 as int == byte_s(pixel_color.x as int),
        r.1 as int == byte_s(pixel_color.y as int),
        r.2 as int == byte_s(pixel_color.z as int),
{
    (channel_byte(pixel_color.x), channel_byte(pixel_color.y), channel_byte(pixel_color.z))
}

/// Every channel emits a byte in `[0, 255]`; an empty channel emits
/// zero, and a full channel (exactly one) emits the top byte, the clamp
/// ceiling notwithstanding.
pub proof fn lemma_gamma_clamp_roundtrip(c: int)
    ensures
        0 <= byte_s(c) <= 255,
        c == 0 ==> byte_s(c) == 0,
        c == FX_ONE as int ==> byte_s(c) == 255,
{
    let clamped = clamp_s((Interval { min: 0, max: INTENSITY_MAX }), gamma_s(c));
    vstd::arithmetic::div_mod::lemma_div_is_ordered(0, 256 * clamped, 65536);
    vstd::arithmetic::div_mod::lemma_div_is_ordered(
        256 * clamped, 256 * (INTENSITY_MAX as int), 65536);
    if c == FX_ONE as int {
        assert(65536 * 65536 <= 65536 * 65536 < 65537 * 65537) by (nonlinear_arith);
        crate::fixed::lemma_sqrt_floor_is(65536int * 65536, 65536int);
        assert(fx_sqrt_s(65536) == crate::fixed::sqrt_floor(65536int * 65536));
        assert(clamped == INTENSITY_MAX as int);
    }
}

} // verus!
