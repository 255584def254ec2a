use vstd::prelude::*;

verus! {

/// bracket-random's xorshift generator, the one shared random stream:
/// map generation, room-shape choice and AI movement all draw from it.
/// Declared opaquely; nothing about its state is assumed.
#[verifier::external_type_specification]
#[verifier::external_body]
pub struct ExRandomNumberGenerator(bracket_random::prelude::RandomNumberGenerator);

/// Relies on `RandomNumberGenerator::range`, which returns a value
/// inclusive of `min` and exclusive of `max`, and panics on an empty
/// range — the precondition rules that out. Nothing further is
/// assumed of which value comes back.
#[verifier::external_body]
pub(crate) fn rng_range(
    rng: &mut bracket_random::prelude::RandomNumberGenerator,
    min: i32,
    max: i32,
) -> (r: i32)
    requires
        min < max,
    ensures
        min <= r < max,
{
    rng.range(min, max)
}

} // verus!
