use vstd::prelude::*;
use rltk::RandomNumberGenerator;

verus! {

#[verifier::external_type_specification]
#[verifier::external_body]
pub struct ExRandomNumberGenerator(RandomNumberGenerator);

/// Relies on RandomNumberGenerator::roll_dice: a single die with `sides`
/// faces shows a value from 1 to `sides`.
#[verifier::external_body]
pub(crate) fn roll_die(rng: &mut RandomNumberGenerator, sides: i32) -> (r: i32)
    requires
        1 <= sides < i32::MAX,
    ensures
        1 <= r <= sides,
{
    rng.roll_dice(1, sides)
}

/// Relies on RandomNumberGenerator::range: a value from `min` up to,
/// but excluding, `max`.
#[verifier::external_body]
pub(crate) fn range_i32(rng: &mut RandomNumberGenerator, min: i32, max: i32) -> (r: i32)
    requires
        min < max,
    ensures
        min <= r < max,
{
    rng.range(min, max)
}

} // verus!
