use rand_seeder::{Seeder, SipRng};
use slide_attack::attack::{attack, Polarity, Sample};
use slide_attack::block::{Block, Subkey};
use slide_attack::cipher::Cipher;
use slide_attack::key::Key;
use slide_attack::sbox::{generate_inverse_sbox, identity_sbox, Sbox};
use slide_attack::simulation::{generate_samples, random_sbox, sample_of_word, simulate};

const SEED: &str = "clubby789";
const SBOX: Sbox = [13, 5, 8, 3, 1, 9, 12, 11, 6, 14, 15, 10, 2, 7, 4, 0];
const PLAINTEXTS: [u8; 20] =
    [51, 171, 119, 189, 110, 169, 201, 37, 143, 208, 166, 139, 44, 51, 99, 10, 176, 25, 43, 176];
const CIPHERTEXTS: [u8; 20] =
    [154, 177, 87, 29, 110, 185, 201, 47, 139, 227, 182, 129, 32, 154, 106, 124, 19, 217, 33, 19];

fn plaintexts(samples: &[Sample]) -> Vec<u8> {
    samples.iter().map(|s| s.plaintext.to_byte()).collect()
}

fn ciphertexts(samples: &[Sample]) -> Vec<u8> {
    samples.iter().map(|s| s.ciphertext.to_byte()).collect()
}

#[test]
fn seeded_run_matches_recorded_trace() {
    let run = simulate(SEED, 20, Some(Polarity::KeepMatch));
    assert_eq!(run.samples[0].plaintext.to_byte(), 51);
    assert_eq!(run.samples[0].ciphertext.to_byte(), 154);
    assert_eq!(run.key, Key(2118));
    assert_eq!(run.key.split_to_keys(), vec![Subkey(70), Subkey(8)]);
    assert_eq!(run.sbox, SBOX);
    assert_eq!(plaintexts(&run.samples), PLAINTEXTS);
    assert_eq!(ciphertexts(&run.samples), CIPHERTEXTS);
    assert_eq!(run.recovered, Some(vec![(Subkey(70), Subkey(8)), (Subkey(70), Subkey(8))]));
}

#[test]
fn seeded_run_recovers_its_own_keys() {
    for seed in [SEED, "a", "c", "d", "e", "f", "g", "h"] {
        let run = simulate(seed, 20, Some(Polarity::KeepMatch));
        let subkeys = run.key.split_to_keys();
        let recovered = run.recovered.unwrap();
        assert!(recovered.contains(&(subkeys[0], subkeys[1])), "seed {}", seed);
    }
}

#[test]
fn seeded_run_without_a_slid_pair_recovers_nothing() {
    let run = simulate("b", 20, Some(Polarity::KeepMatch));
    assert_eq!(run.key, Key(19250));
    assert_eq!(run.recovered, Some(vec![]));
}

#[test]
fn mismatch_polarity_never_recovers_the_keys() {
    for seed in [SEED, "a", "b", "c", "d", "e", "f", "g", "h"] {
        let run = simulate(seed, 20, Some(Polarity::KeepMismatch));
        let subkeys = run.key.split_to_keys();
        let recovered = run.recovered.unwrap();
        assert!(!recovered.contains(&(subkeys[0], subkeys[1])), "seed {}", seed);
    }
    assert_eq!(simulate(SEED, 20, Some(Polarity::KeepMismatch)).recovered, Some(vec![]));
}

#[test]
fn same_seed_gives_the_same_run() {
    let first = simulate(SEED, 20, Some(Polarity::KeepMatch));
    let second = simulate(SEED, 20, Some(Polarity::KeepMatch));
    assert_eq!(first.key, second.key);
    assert_eq!(first.sbox, second.sbox);
    assert_eq!(first.samples, second.samples);
    assert_eq!(first.recovered, second.recovered);
    let other = simulate("a", 20, Some(Polarity::KeepMatch));
    assert_eq!(other.key, Key(6763));
    assert_eq!(other.sbox, [7, 6, 5, 8, 13, 9, 3, 11, 0, 12, 4, 10, 1, 15, 14, 2]);
    assert_eq!(other.recovered, Some(vec![(Subkey(107), Subkey(26))]));
}

#[test]
fn run_without_attack_recovers_nothing() {
    let run = simulate(SEED, 20, None);
    assert_eq!(run.recovered, None);
    assert_eq!(run.key, Key(2118));
    assert_eq!(run.sbox, SBOX);
    assert_eq!(plaintexts(&run.samples), PLAINTEXTS);
    assert_eq!(ciphertexts(&run.samples), CIPHERTEXTS);
}

#[test]
fn run_makes_as_many_samples_as_asked() {
    assert_eq!(simulate(SEED, 0, Some(Polarity::KeepMatch)).samples.len(), 0);
    assert_eq!(simulate(SEED, 0, Some(Polarity::KeepMatch)).recovered, Some(vec![]));
    let short = simulate(SEED, 3, None);
    assert_eq!(plaintexts(&short.samples), [51, 171, 119]);
    assert_eq!(ciphertexts(&short.samples), [154, 177, 87]);
    assert_eq!(simulate(SEED, 50, None).samples.len(), 50);
}

#[test]
fn setup_draws_key_then_box_then_plaintexts() {
    let mut rng: SipRng = Seeder::from(SEED).into_rng();
    let mut key = Key(0);
    key.random_key(&mut rng);
    assert_eq!(key, Key(2118));
    let sbox = random_sbox(&mut rng);
    assert_eq!(sbox, SBOX);
    let cipher = Cipher::new(sbox, key).unwrap();
    let samples = generate_samples(&cipher, &mut rng, 20);
    assert_eq!(plaintexts(&samples), PLAINTEXTS);
    assert_eq!(ciphertexts(&samples), CIPHERTEXTS);
    let recovered = attack(&samples, sbox, Polarity::KeepMatch).unwrap();
    assert!(recovered.contains(&(Subkey(70), Subkey(8))));
}

#[test]
fn random_key_takes_the_first_byte_drawn_as_the_low_byte() {
    let mut rng: SipRng = Seeder::from(SEED).into_rng();
    let mut key = Key(0xffff);
    key.random_key(&mut rng);
    assert_eq!(key.split_to_keys(), vec![Subkey(0x46), Subkey(0x08)]);
    key.random_key(&mut rng);
    assert_ne!(key, Key(2118));
}

#[test]
fn random_box_is_a_shuffled_permutation() {
    for seed in [SEED, "a", "b", "stripy zebra", ""] {
        let mut rng: SipRng = Seeder::from(seed).into_rng();
        let sbox = random_sbox(&mut rng);
        assert_ne!(sbox, identity_sbox(), "seed {:?}", seed);
        let mut sorted = sbox;
        sorted.sort();
        assert_eq!(sorted, identity_sbox());
        let inverse = generate_inverse_sbox(sbox).unwrap();
        assert_eq!(generate_inverse_sbox(inverse), Ok(sbox));
        for x in 0..16usize {
            assert_eq!(inverse[sbox[x] as usize] as usize, x);
        }
        let next = random_sbox(&mut rng);
        assert_ne!(next, sbox);
    }
}

#[test]
fn sample_takes_the_low_byte_of_the_word() {
    let cipher = Cipher::new(SBOX, Key(2118)).unwrap();
    let sample = sample_of_word(&cipher, 0x1234_5633);
    assert_eq!(sample, Sample { plaintext: Block(0x33), ciphertext: Block(154) });
    assert_eq!(sample_of_word(&cipher, 0xffff_ff00).plaintext, Block(0));
    assert_eq!(sample_of_word(&cipher, 171).ciphertext, Block(177));
}

#[test]
fn samples_are_encryptions_under_the_cipher() {
    let cipher = Cipher::new(SBOX, Key(0xbeef)).unwrap();
    let mut rng: SipRng = Seeder::from("samples").into_rng();
    let samples = generate_samples(&cipher, &mut rng, 64);
    assert_eq!(samples.len(), 64);
    for sample in &samples {
        assert_eq!(cipher.encrypt_block(sample.plaintext), sample.ciphertext);
    }
    let mut again: SipRng = Seeder::from("samples").into_rng();
    assert_eq!(generate_samples(&cipher, &mut again, 64), samples);
    assert_ne!(plaintexts(&samples[..8]), plaintexts(&samples[8..16]));
}
