//! The seeded random number generator, as far as the library relies on it.

use vstd::prelude::*;
use bracket_lib::prelude::RandomNumberGenerator;

verus! {

/// The xorshift generator of `bracket_lib`, carried as an opaque value.
#[verifier::external_type_specification]
#[verifier::external_body]
pub struct ExRandomNumberGenerator(RandomNumberGenerator);

/// The four state words of a generator. Every draw is computed from them and
/// replaces them; nothing else enters a draw.
pub uninterp spec fn rng_state(rng: RandomNumberGenerator) -> Seq<u32>;

/// The state words that `RandomNumberGenerator::seeded` derives from a seed.
pub uninterp spec fn seeded_state(seed: u64) -> Seq<u32>;

/// What `RandomNumberGenerator::range` does in a given state: the number it
/// returns and the state it leaves.
pub uninterp spec fn range_draw(state: Seq<u32>, min: int, max: int) -> (int, Seq<u32>);

/// What rolling `n` dice of `die_type` faces does in a given state: the sum of
/// `n` successive draws from `1` to `die_type`, and the state after the last.
pub open spec fn dice_roll(state: Seq<u32>, n: int, die_type: int) -> (int, Seq<u32>)
    decreases n,
{
    if n <= 0 {
        (0, state)
    } else {
        let first = range_draw(state, 1, die_type + 1);
        let rest = dice_roll(first.1, n - 1, die_type);
        (first.0 + rest.0, rest.1)
    }
}

/// `RandomNumberGenerator::seeded`: the generator's state is a function of the
/// seed alone.
#[verifier::external_body]
pub(crate) fn seeded_rng(seed: u64) -> (rng: RandomNumberGenerator)
    ensures
        rng_state(rng) == seeded_state(seed),
{
    RandomNumberGenerator::seeded(seed)
}

/// `RandomNumberGenerator::range` on `i32`: a number from `min` up to, and not
/// including, `max`, determined by the state before the call. An empty range
/// makes the outside function panic and is excluded.
#[verifier::external_body]
pub(crate) fn range(rng: &mut RandomNumberGenerator, min: i32, max: i32) -> (r: i32)
    requires
        min < max,
    ensures
        min <= r < max,
        r == range_draw(rng_state(*old(rng)), min as int, max as int).0,
        rng_state(*final(rng)) == range_draw(rng_state(*old(rng)), min as int, max as int).1,
{
    rng.range(min, max)
}

/// `RandomNumberGenerator::roll_dice`: the sum of `n` draws of `range(1,
/// die_type + 1)`, made one after the other. Dice without faces and sums
/// beyond `i32` make the outside function panic and are excluded.
#[verifier::external_body]
pub(crate) fn roll_dice(rng: &mut RandomNumberGenerator, n: i32, die_type: i32) -> (r: i32)
    requires
        0 <= n,
        1 <= die_type < i32::MAX,
        n * die_type <= i32::MAX,
    ensures
        n <= r <= n * die_type,
        r == dice_roll(rng_state(*old(rng)), n as int, die_type as int).0,
        rng_state(*final(rng)) == dice_roll(rng_state(*old(rng)), n as int, die_type as int).1,
{
    rng.roll_dice(n, die_type)
}

} // verus!
