use vstd::prelude::*;
use bracket_lib::prelude::RandomNumberGenerator;

verus! {

/// The dice roller of `bracket-lib` (a xorshift generator), carried through
/// map generation and monster creation as an opaque value.
#[verifier::external_type_specification]
#[verifier::external_body]
pub struct ExRandomNumberGenerator(RandomNumberGenerator);

/// Calls `RandomNumberGenerator::new`, which seeds the generator from the
/// operating system's entropy (or the clock). Nothing is stated of the result.
#[verifier::external_body]
pub(crate) fn new_rng() -> (rng: RandomNumberGenerator) {
    RandomNumberGenerator::new()
}

/// Calls `RandomNumberGenerator::range::<i32>`, which draws uniformly from
/// `min..max` through `rand`'s `gen_range` (that call panics on an empty range,
/// hence the `requires`). The contract claims only that the result lies in
/// the half-open range; which value comes out depends on the generator's state.
#[verifier::external_body]
pub(crate) fn range(rng: &mut RandomNumberGenerator, min: i32, max: i32) -> (r: i32)
    requires
        min < max,
    ensures
        min <= r < max,
{
    rng.range(min, max)
}

/// Calls `RandomNumberGenerator::roll_dice(n, die_type)`, which sums `n` draws
/// of `range(1, die_type + 1)`. The `requires` rules out the empty range, the
/// overflow of `die_type + 1` and of the sum. The contract claims only that the
/// sum lies between `n` and `n * die_type`.
#[verifier::external_body]
pub(crate) fn roll_dice(rng: &mut RandomNumberGenerator, n: i32, die_type: i32) -> (r: i32)
    requires
        0 <= n,
        1 <= die_type < i32::MAX,
        n * die_type <= i32::MAX,
    ensures
        n <= r <= n * die_type,
{
    rng.roll_dice(n, die_type)
}

} // verus!
