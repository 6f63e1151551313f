//! Pixel conversion: average the accumulated samples, gamma-correct by a
//! square root, clamp, and map into the 0..255 integer range.  The I/O
//! layer around the renderer formats and writes the triple.

use vstd::prelude::*;
use crate::fixed::{SCALE, tdiv, fsqrts, clamps, tdiv_exec, fsqrt, clamp, lemma_tdiv_bound};
use vstd::arithmetic::div_mod::{lemma_div_is_ordered, lemma_div_pos_is_pos};
use crate::vec3::{Vec3, m3, bounded3};

verus! {

/// Raw magnitude bound on an accumulated (summed over samples) channel.
pub const ACC_LIM: i128 = 100_000_000_000_000_000_000_000_000;

/// One channel of the written pixel: average over the sample count,
/// gamma-correct (negative averages are floored at black), clamp to
/// [0, 0.999], scale by 256.
pub open spec fn channel_s(c: int, n: int) -> int {
    let avg = tdiv(c, n);
    let g = fsqrts(
        if avg < 0 {
            0
        } else {
            avg
        },
    );
    let cl = clamps(g, 0, 99_900_000);
    tdiv(256 * cl, SCALE as int)
}

pub open spec fn rgb_s(c: (int, int, int), n: int) -> (int, int, int) {
    (channel_s(c.0, n), channel_s(c.1, n), channel_s(c.2, n))
}

fn channel(c: i128, samples_per_pixel: u32) -> (r: u8)
    requires
        1 <= samples_per_pixel,
        -ACC_LIM <= c <= ACC_LIM,
    ensures
        r == channel_s(c as int, samples_per_pixel as int),
{
    let avg: i128 = tdiv_exec(c, samples_per_pixel as i128);
    proof {
        lemma_tdiv_bound(c as int, samples_per_pixel as int, ACC_LIM as int);
    }
    let base: i128 = if avg < 0 {
        0
    } else {
        avg
    };
    let g: i128 = fsqrt(base);
    let cl: i128 = clamp(g, 0, 99_900_000);
    let out: i128 = tdiv_exec(256 * cl, SCALE);
    proof {
        lemma_div_pos_is_pos(256 * cl, SCALE as int);
        lemma_div_is_ordered(256 * cl, 25_574_400_000, SCALE as int);
    }
    out as u8
}

/// The 0..255 triple of a pixel accumulated over `samples_per_pixel`
/// samples.
pub fn to_rgb(color: &Vec3, samples_per_pixel: u32) -> (rgb: (u8, u8, u8))
    requires
        1 <= samples_per_pixel,
        bounded3(m3(*color), ACC_LIM as int),
    ensures
        (rgb.0 as int, rgb.1 as int, rgb.2 as int) == rgb_s(m3(*color), samples_per_pixel as int),
        rgb.0 <= 255 && rgb.1 <= 255 && rgb.2 <= 255,
{
    (
        channel(color.x, samples_per_pixel),
        channel(color.y, samples_per_pixel),
        channel(color.z, samples_per_pixel),
    )
}

} // verus!
