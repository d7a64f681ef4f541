//! Random numbers, drawn with `rltk`'s generator.

use vstd::prelude::*;

verus! {

/// `rltk`'s random number generator. Nothing is known of its state.
#[verifier::external_type_specification]
#[verifier::external_body]
pub struct ExRandomNumberGenerator(rltk::RandomNumberGenerator);

/// Makes a generator with `rltk::RandomNumberGenerator::new`, which seeds
/// it from the operating system. Nothing is claimed of it.
#[verifier::external_body]
pub(crate) fn new_generator() -> (rng: rltk::RandomNumberGenerator) {
    rltk::RandomNumberGenerator::new()
}

/// Rolls `n` dice of `die_type` sides with
/// `rltk::RandomNumberGenerator::roll_dice`, which adds up `n` draws from
/// `1 ..= die_type`. The sum therefore lies between `n` and `n * die_type`.
/// The call fails on a die without sides, and its sum has to fit 32 bits.
#[verifier::external_body]
pub(crate) fn roll_dice(rng: &mut rltk::RandomNumberGenerator, n: i32, die_type: i32) -> (r: i32)
    requires
        0 <= n,
        1 <= die_type < i32::MAX,
        n * die_type <= i32::MAX,
    ensures
        n <= r <= n * die_type,
{
    rng.roll_dice(n, die_type)
}

/// Draws from `min .. max` with `rltk::RandomNumberGenerator::range`: the
/// lower end can come up, the upper cannot. The call fails on an empty
/// range.
#[verifier::external_body]
pub(crate) fn range(rng: &mut rltk::RandomNumberGenerator, min: i32, max: i32) -> (r: i32)
    requires
        min < max,
    ensures
        min <= r < max,
{
    rng.range(min, max)
}

} // verus!
