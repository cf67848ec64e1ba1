use vstd::prelude::*;
use rltk::RandomNumberGenerator;

verus! {

/// The random number generator of `rltk`. Nothing is known of its state:
/// two generators, or one generator at two moments, may answer differently.
#[verifier::external_type_specification]
#[verifier::external_body]
pub struct ExRandomNumberGenerator(RandomNumberGenerator);

/// `RandomNumberGenerator::new` seeds a generator from the system's source of
/// randomness. Nothing is claimed of the generator it returns.
pub assume_specification[ RandomNumberGenerator::new ]() -> (rng: RandomNumberGenerator)
;

/// `RandomNumberGenerator::roll_dice` adds up `n` draws, each from 1 to
/// `die_type`. It may panic where the die has no face or where `die_type + 1`
/// or the total leaves `i32`, so the contract asks for a die of at least one
/// face and for a largest possible total that fits. It claims that the total
/// is 0 without dice, and otherwise between `n` and `n * die_type`.
pub assume_specification[ RandomNumberGenerator::roll_dice ](
    rng: &mut RandomNumberGenerator,
    n: i32,
    die_type: i32,
) -> (total: i32)
    requires
        1 <= die_type < i32::MAX,
        n * die_type <= i32::MAX,
    ensures
        n <= 0 ==> total == 0,
        n > 0 ==> n <= total <= n * die_type,
;

/// `RandomNumberGenerator::range` on `i32`. It panics on an empty range, so
/// the contract asks for `min < max`. It claims that the draw is at least
/// `min` and below `max`.
#[verifier::external_body]
pub(crate) fn range(rng: &mut RandomNumberGenerator, min: i32, max: i32) -> (value: i32)
    requires
        min < max,
    ensures
        min <= value < max,
{
    rng.range(min, max)
}

} // verus!
