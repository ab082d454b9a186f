//! The random source: a generator that a text seeds, and the three things
//! the setup draws from it.
//!
//! Nothing here is proved. Each function makes one call into `rand` or
//! `rand_seeder`, and its contract says what that crate's source shows of
//! the call.

use rand::seq::SliceRandom;
use rand::{Rng, RngCore};
use rand_seeder::{Seeder, SipRng};
use vstd::prelude::*;

verus! {

/// `rand_seeder::SipRng`, a generator built on the SipHash rounds. Its state
/// is hidden from the proofs.
#[verifier::external_type_specification]
#[verifier::external_body]
pub struct ExSipRng(rand_seeder::SipRng);

/// Calls `Seeder::from(seed).into_rng()`: the generator that the seed's
/// hash starts. Nothing is claimed of it.
#[verifier::external_body]
pub(crate) fn seeded_rng(seed: &str) -> (rng: SipRng) {
    Seeder::from(seed).into_rng()
}

/// Calls `RngCore::next_u32`: the generator's next word. Nothing is claimed
/// of it.
#[verifier::external_body]
pub(crate) fn next_word(rng: &mut SipRng) -> (word: u32) {
    rng.next_u32()
}

/// Calls `Rng::fill` on a slice of two bytes: the next two bytes of the
/// generator. Nothing is claimed of them.
#[verifier::external_body]
pub(crate) fn next_two_bytes(rng: &mut SipRng) -> (bytes: [u8; 2]) {
    let mut bytes = [0u8; 2];
    rng.fill(&mut bytes[..]);
    bytes
}

/// Calls `SliceRandom::shuffle` on the sixteen entries. The shuffle only
/// swaps entries, so the table ends with the entries it began with, each as
/// often as before. Nothing is claimed of their order.
#[verifier::external_body]
pub(crate) fn shuffle_table(table: &mut [u8; 16], rng: &mut SipRng)
    ensures
        final(table)@.to_multiset() == old(table)@.to_multiset(),
{
    table.shuffle(rng);
}

} // verus!
