//! Random draws.
//!
//! All randomness of the renderer is drawn from an injected `rand`
//! generator, so a caller can seed it and reproduce a run.  The generator
//! type and the raw draw are the only trusted items of this module: every
//! sampler built on top of them is verified against the draw's range
//! contract, which is all that holds of every outcome of a random draw.

use vstd::prelude::*;
use crate::fixed::{SCALE, fmuls, fmul, lemma_mul_bound};
use vstd::arithmetic::div_mod::{lemma_div_pos_is_pos, lemma_div_is_ordered,
    lemma_fundamental_div_mod};
use rand::Rng;
use rand::SeedableRng;

verus! {

#[verifier::external_type_specification]
#[verifier::external_body]
pub struct ExStdRng(rand::rngs::StdRng);

/// Relies on rand::rngs::StdRng::seed_from_u64 (SeedableRng): builds a
/// generator whose stream is a function of the seed alone.
#[verifier::external_body]
pub fn seeded_rng(seed: u64) -> rand::rngs::StdRng {
    rand::rngs::StdRng::seed_from_u64(seed)
}

/// Relies on rand::rngs::StdRng::from_entropy (SeedableRng): builds a
/// generator seeded from the operating system.  It panics if the
/// operating system's randomness source fails, an environmental failure
/// on which nothing verified rests.
#[verifier::external_body]
pub fn entropy_rng() -> rand::rngs::StdRng {
    rand::rngs::StdRng::from_entropy()
}

/// One uniform draw from [0, 1), as a raw fixed-point value.
///
/// Relies on rand::Rng::gen_range: the result lies in the given half-open
/// range; nothing more is assumed of it.
#[verifier::external_body]
pub fn get_rand(rng: &mut rand::rngs::StdRng) -> (r: i128)
    ensures
        0 <= r < SCALE,
{
    rng.gen_range(0i128..100_000_000i128)
}

/// One uniform draw from [min, max), as a raw fixed-point value: the draw
/// from [0, 1) is rescaled onto the requested range.
pub fn get_rand_range(rng: &mut rand::rngs::StdRng, min: i128, max: i128) -> (r: i128)
    requires
        min < max,
        (max as int) - (min as int) <= (i128::MAX as int) / (SCALE as int),
    ensures
        min <= r < max,
        exists|u: int|
            0 <= u < SCALE && r == min + #[trigger] fmuls((max as int) - (min as int), u),
{
    let u: i128 = get_rand(rng);
    let span: i128 = max - min;
    proof {
        lemma_mul_bound(span as int, u as int, (i128::MAX as int) / (SCALE as int), SCALE as int);
        assert(((i128::MAX as int) / (SCALE as int)) * (SCALE as int) <= i128::MAX) by {
            lemma_fundamental_div_mod(i128::MAX as int, SCALE as int);
        };
    }
    let off: i128 = fmul(span, u);
    proof {
        let sp = span as int;
        let s = SCALE as int;
        let p = sp * (u as int);
        assert(0 <= p) by (nonlinear_arith)
            requires
                p == sp * (u as int) && 0 <= sp && 0 <= u as int,
        ;
        lemma_div_pos_is_pos(p, s);
        assert(p <= sp * s - sp) by (nonlinear_arith)
            requires
                p == sp * (u as int) && u as int <= s - 1 && 0 <= sp,
        ;
        lemma_div_is_ordered(p, sp * s - 1, s);
        vstd::arithmetic::div_mod::lemma_div_multiples_vanish_fancy(sp - 1, s - 1, s);
        assert(s * (sp - 1) + (s - 1) == sp * s - 1) by (nonlinear_arith);
        assert(off <= sp - 1);
    }
    min + off
}

} // verus!
