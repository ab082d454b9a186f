//! A whole run: a secret key and a public box drawn from a seeded source,
//! samples encrypted under them, and, if asked for, the attack on those
//! samples.

use crate::attack::{attack, recovered, samples_fit, Polarity, Sample};
use crate::block::{Block, Subkey};
use crate::cipher::{encrypt, Cipher};
use crate::key::{schedule, Key};
use crate::sbox::{
    identity_sbox, is_permutation, lemma_identity_is_permutation, lemma_rearranged_permutation,
    Sbox,
};
use crate::source::{next_word, seeded_rng, shuffle_table};
use rand_seeder::SipRng;
use vstd::prelude::*;

verus! {

/// The byte in bits 0..8 of a word.
pub open spec fn low_byte(word: u32) -> u8 {
    (word & 0xff) as u8
}

/// What a run leaves behind.
#[derive(Debug)]
pub struct Simulation {
    /// The substitution box, which the attacker knows.
    pub sbox: Sbox,
    /// The key, which the attacker does not know.
    pub key: Key,
    /// The samples, in the order in which they were made.
    pub samples: Vec<Sample>,
    /// What the attack recovered; `None` if it was not run.
    pub recovered: Option<Vec<(Subkey, Subkey)>>,
}

/// A substitution box drawn from `rng`: the identity table, shuffled.
/// Whatever the generator gives, the box is a permutation.
pub fn random_sbox(rng: &mut SipRng) -> (sbox: Sbox)
    ensures
        is_permutation(sbox@),
{
    let mut sbox = identity_sbox();
    let ghost before = sbox@;
    shuffle_table(&mut sbox, rng);
    proof {
        lemma_identity_is_permutation();
        lemma_rearranged_permutation(before, sbox@);
    }
    sbox
}

/// The sample whose plaintext is the low byte of `word`.
pub fn sample_of_word(cipher: &Cipher, word: u32) -> (sample: Sample)
    ensures
        sample@.0 == low_byte(word),
        sample@.1 == encrypt(low_byte(word), cipher@.subkeys, cipher@.sbox),
{
    let plaintext = Block::from_byte((word & 0xff) as u8);
    let ciphertext = cipher.encrypt_block(plaintext);
    Sample { plaintext, ciphertext }
}

/// `count` samples under `cipher`, each plaintext the low byte of the next
/// word of `rng`. Whatever the generator gives, every sample holds the
/// ciphertext of its plaintext.
pub fn generate_samples(cipher: &Cipher, rng: &mut SipRng, count: usize) -> (samples: Vec<Sample>)
    ensures
        samples.len() == count,
        samples_fit(samples.deep_view(), cipher@.subkeys, cipher@.sbox),
{
    let mut samples: Vec<Sample> = Vec::new();
    let mut n: usize = 0;
    while n < count
        invariant
            n <= count,
            samples.len() == n,
            samples_fit(samples.deep_view(), cipher@.subkeys, cipher@.sbox),
        decreases count - n,
    {
        let word = next_word(rng);
        let sample = sample_of_word(cipher, word);
        let ghost before = samples.deep_view();
        samples.push(sample);
        assert(samples.deep_view() =~= before.push(sample@));
        n += 1;
    }
    samples
}

/// One run from the seed `seed`: draws the key, then the box, makes
/// `count` samples, and runs the attack on them if `polarity` names the
/// basic test to use.
///
/// Whatever the generator gives: the box is a permutation, every sample
/// fits the key's schedule, and what was recovered is what the attack
/// yields on these samples.
pub fn simulate(seed: &str, count: usize, polarity: Option<Polarity>) -> (run: Simulation)
    ensures
        is_permutation(run.sbox@),
        run.samples.len() == count,
        samples_fit(run.samples.deep_view(), schedule(run.key@), run.sbox@),
        match polarity {
            Some(p) => run.recovered matches Some(keys) && keys.deep_view() == recovered(
                run.samples.deep_view(),
                run.sbox@,
                p,
            ),
            None => run.recovered is None,
        },
{
    let mut rng = seeded_rng(seed);
    let mut key = Key(0);
    key.random_key(&mut rng);
    let sbox = random_sbox(&mut rng);
    let cipher = Cipher::assemble(sbox, key.split_to_keys());
    let samples = generate_samples(&cipher, &mut rng, count);
    let recovered = match polarity {
        // The attack fails on no box but one that is no permutation.
        Some(p) => match attack(samples.as_slice(), sbox, p) {
            Ok(keys) => Some(keys),
            Err(_) => None,
        },
        None => None,
    };
    Simulation { sbox, key, samples, recovered }
}

} // verus!
