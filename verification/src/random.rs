//! Winning numbers from a seed.
//!
//! The numbers of a draw come from the ChaCha20 key stream that the seed
//! starts: the first six words of the stream, each reduced to the range of a
//! winning number. The same seed gives the same numbers.

use rand_chacha::rand_core::{RngCore, SeedableRng};
use rand_chacha::ChaCha20Rng;
use vstd::prelude::*;

verus! {

/// How many winning numbers a draw has.
pub const WINNING_NUMBERS: usize = 6;

/// Every winning number is below this bound.
pub const WINNING_BOUND: u32 = 49;

/// Word number `index`, counting from zero, of the ChaCha20 key stream that
/// a generator seeded with `seed` puts out.
pub uninterp spec fn keystream_word(seed: Seq<u8>, index: u64) -> u32;

/// The winning number that a word of the key stream gives.
pub open spec fn number_of_word(word: u32) -> u32 {
    word % WINNING_BOUND
}

/// The first `count` numbers that `seed` gives.
pub open spec fn drawn(seed: Seq<u8>, count: nat) -> Seq<u32> {
    Seq::new(count, |at: int| number_of_word(keystream_word(seed, at as u64)))
}

/// The winning numbers that `seed` gives.
pub open spec fn winning_numbers(seed: Seq<u8>) -> Seq<u32> {
    drawn(seed, WINNING_NUMBERS as nat)
}

/// What the data model asks of the winning numbers of a closed draw: there
/// are six, each below [`WINNING_BOUND`].
pub open spec fn are_winning_numbers(numbers: Seq<u32>) -> bool {
    &&& numbers.len() == WINNING_NUMBERS
    &&& forall|at: int| 0 <= at < numbers.len() ==> #[trigger] numbers[at] < WINNING_BOUND
}

/// Reduces a word of the key stream to a winning number.
pub fn winning_number(word: u32) -> (number: u32)
    ensures
        number == number_of_word(word),
        number < WINNING_BOUND,
{
    word % WINNING_BOUND
}

/// The six winning numbers that `seed` gives.
pub fn generate_winning_numbers(seed: &[u8; 32]) -> (numbers: Vec<u32>)
    ensures
        numbers@ == winning_numbers(seed@),
        are_winning_numbers(numbers@),
{
    let mut numbers: Vec<u32> = Vec::new();
    let mut at: u64 = 0;
    assert(numbers@ =~= drawn(seed@, 0));
    while at < 6
        invariant
            at <= 6,
            numbers@ == drawn(seed@, at as nat),
            forall|k: int| 0 <= k < numbers@.len() ==> #[trigger] numbers@[k] < WINNING_BOUND,
        decreases 6 - at,
    {
        let word = chacha20_word(seed, at);
        numbers.push(winning_number(word));
        at += 1;
        assert(numbers@ =~= drawn(seed@, at as nat));
    }
    numbers
}

/// The numbers that a seed gives are winning numbers as the data model asks.
pub proof fn lemma_winning_numbers(seed: Seq<u8>)
    ensures
        are_winning_numbers(winning_numbers(seed)),
{
}

/// Seeds a `ChaCha20Rng` with `SeedableRng::from_seed`, moves it to word
/// `index` of its key stream with `ChaCha20Rng::set_word_pos` and takes that
/// word with `RngCore::next_u32`. The generator is made and dropped here, so
/// the word depends on the seed and the index alone; a fresh generator
/// stands at word zero and moves one word on with every `next_u32`.
#[verifier::external_body]
fn chacha20_word(seed: &[u8; 32], index: u64) -> (word: u32)
    ensures
        word == keystream_word(seed@, index),
{
    let mut generator = ChaCha20Rng::from_seed(*seed);
    generator.set_word_pos(u128::from(index));
    generator.next_u32()
}

} // verus!
