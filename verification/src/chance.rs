//! Random draws. Nothing is known of a draw from the thread's generator but
//! the range it lies in, so every caller is verified for all outcomes. What a
//! seeded generator gives follows from the seed alone.

use rand::distributions::Standard;
use rand::rngs::StdRng;
use rand::seq::IteratorRandom;
use rand::{Rng, SeedableRng};
use vstd::prelude::*;

verus! {

/// `rand::Rng::gen_range` on `rand::thread_rng()`: some value in
/// `[low, high)`. It panics on an empty range, which `requires` leaves out.
#[verifier::external_body]
pub(crate) fn uniform(low: u64, high: u64) -> (drawn: u64)
    requires
        low < high,
    ensures
        low <= drawn < high,
{
    rand::thread_rng().gen_range(low, high)
}

/// `rand::Rng::gen` on `rand::thread_rng()`: any 64-bit word.
#[verifier::external_body]
pub(crate) fn random_word() -> u64 {
    rand::thread_rng().gen::<u64>()
}

/// `rand::random`: any 64-bit word.
#[verifier::external_body]
pub(crate) fn random_tag() -> u64 {
    rand::random::<u64>()
}

/// Whether `positions` are pairwise different places in a sequence of
/// `count` items.
pub open spec fn distinct_positions(positions: Seq<usize>, count: nat) -> bool {
    &&& forall|i: int| 0 <= i < positions.len() ==> (#[trigger] positions[i]) < count
    &&& forall|i: int, j: int|
        0 <= i < j < positions.len() ==> #[trigger] positions[i] != #[trigger] positions[j]
}

/// `rand::seq::IteratorRandom::choose_multiple` on the positions of `items`:
/// `amount` places in `items`, no place twice, in no particular order. The
/// sampler keeps a reservoir of the first `amount` positions and overwrites
/// slots with later ones, so each position is handed out at most once. With
/// `amount` above the number of items it would return fewer; `requires`
/// leaves that out, together with a reservoir larger than `items` itself.
#[verifier::external_body]
pub(crate) fn sample_positions(items: &Vec<u64>, amount: usize) -> (positions: Vec<usize>)
    requires
        amount <= items@.len(),
    ensures
        positions@.len() == amount,
        distinct_positions(positions@, items@.len()),
{
    (0..items.len()).choose_multiple(&mut rand::thread_rng(), amount)
}

/// The first `count` words that the standard generator gives when it is
/// seeded with `seed`.
pub uninterp spec fn seeded_words(seed: u64, count: nat) -> Seq<u64>;

/// `rand::Rng::sample_iter` on `StdRng::seed_from_u64(seed)`: the first
/// `count` words of the generator's stream, which the seed alone decides.
#[verifier::external_body]
pub(crate) fn seeded_values(seed: u64, count: usize) -> (values: Vec<u64>)
    ensures
        values@ == seeded_words(seed, count as nat),
        values@.len() == count,
{
    StdRng::seed_from_u64(seed).sample_iter(Standard).take(count).collect()
}

} // verus!
