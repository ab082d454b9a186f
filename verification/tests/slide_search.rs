use slide_attack::attack::{
    attack, check_key_basic, check_key_expensive, check_slid_pair, recover_key_combinations,
    Polarity, Sample, CHECKED_SAMPLES,
};
use slide_attack::block::{Block, Subkey};
use slide_attack::cipher::Cipher;
use slide_attack::sbox::{InvalidSbox, Sbox};

const SBOX: Sbox = [13, 5, 8, 3, 1, 9, 12, 11, 6, 14, 15, 10, 2, 7, 4, 0];
const BROKEN: Sbox = [13, 5, 8, 3, 1, 9, 12, 11, 6, 14, 15, 10, 2, 7, 0, 0];
const PLAINTEXTS: [u8; 20] =
    [51, 171, 119, 189, 110, 169, 201, 37, 143, 208, 166, 139, 44, 51, 99, 10, 176, 25, 43, 176];
const CIPHERTEXTS: [u8; 20] =
    [154, 177, 87, 29, 110, 185, 201, 47, 139, 227, 182, 129, 32, 154, 106, 124, 19, 217, 33, 19];

fn known_samples() -> Vec<Sample> {
    let mut samples = Vec::new();
    for i in 0..20 {
        samples.push(Sample { plaintext: Block(PLAINTEXTS[i]), ciphertext: Block(CIPHERTEXTS[i]) });
    }
    samples
}

fn pairs(keys: &[(u8, u8)]) -> Vec<(Subkey, Subkey)> {
    keys.iter().map(|&(k0, k1)| (Subkey(k0), Subkey(k1))).collect()
}

#[test]
fn every_guess_gets_a_candidate() {
    let candidates = recover_key_combinations(Block(166), Block(25), SBOX).unwrap();
    assert_eq!(candidates.len(), 256);
    for (guess, candidate) in candidates.iter().enumerate() {
        assert_eq!(candidate.0.to_byte() as usize, guess);
    }
    assert_eq!(&candidates[..4], &pairs(&[(0, 185), (1, 190), (2, 180), (3, 188)])[..]);
    assert_eq!(candidates[70], (Subkey(70), Subkey(8)));
    assert_eq!(candidates[255], (Subkey(255), Subkey(219)));
}

#[test]
fn candidate_keys_lead_from_first_plaintext_to_second() {
    let cipher = Cipher::from_subkeys(SBOX, Subkey(0), Subkey(0)).unwrap();
    for (pt1, pt2) in [(166u8, 25u8), (0, 0), (255, 1), (44, 43)] {
        let candidates = recover_key_combinations(Block(pt1), Block(pt2), SBOX).unwrap();
        for (k0, k1) in candidates {
            let after = cipher.encrypt_round(cipher.encrypt_round(Block(pt1), k0), k1);
            assert_eq!(after, Block(pt2));
        }
    }
}

#[test]
fn candidates_need_a_permutation() {
    assert_eq!(
        recover_key_combinations(Block(166), Block(25), BROKEN),
        Err(InvalidSbox { missing: 4 })
    );
}

#[test]
fn basic_check_follows_its_polarity() {
    let keep = Polarity::KeepMatch;
    let drop = Polarity::KeepMismatch;
    assert_eq!(check_key_basic(Block(51), Block(154), Subkey(70), Subkey(8), SBOX, keep), Ok(true));
    assert_eq!(check_key_basic(Block(51), Block(154), Subkey(70), Subkey(8), SBOX, drop), Ok(false));
    assert_eq!(check_key_basic(Block(51), Block(154), Subkey(71), Subkey(8), SBOX, keep), Ok(false));
    assert_eq!(check_key_basic(Block(51), Block(154), Subkey(71), Subkey(8), SBOX, drop), Ok(true));
    assert_eq!(check_key_basic(Block(51), Block(151), Subkey(71), Subkey(8), SBOX, keep), Ok(true));
    assert_eq!(
        check_key_basic(Block(51), Block(154), Subkey(70), Subkey(8), BROKEN, keep),
        Err(InvalidSbox { missing: 4 })
    );
}

#[test]
fn cheap_check_keeps_consistent_candidates() {
    let kept =
        check_slid_pair(Block(166), Block(25), Block(182), Block(217), SBOX, Polarity::KeepMatch);
    assert_eq!(
        kept,
        Ok(pairs(&[(65, 14), (67, 12), (70, 8), (73, 5), (74, 7), (78, 3), (79, 11)]))
    );
}

#[test]
fn cheap_check_with_mismatch_polarity_keeps_the_rest() {
    let kept =
        check_slid_pair(Block(166), Block(25), Block(182), Block(217), SBOX, Polarity::KeepMismatch)
            .unwrap();
    assert_eq!(kept.len(), 25);
    assert_eq!(&kept[..3], &pairs(&[(64, 9), (66, 4), (68, 13)])[..]);
    assert_eq!(kept[24], (Subkey(95), Subkey(75)));
    assert!(!kept.contains(&(Subkey(70), Subkey(8))));
}

#[test]
fn cheap_check_needs_a_permutation() {
    assert_eq!(
        check_slid_pair(Block(166), Block(25), Block(182), Block(217), BROKEN, Polarity::KeepMatch),
        Err(InvalidSbox { missing: 4 })
    );
}

#[test]
fn expensive_check_accepts_the_keys_of_the_cipher() {
    assert_eq!(check_key_expensive(Subkey(70), Subkey(8), &known_samples(), SBOX), Ok(true));
}

#[test]
fn expensive_check_rejects_a_wrong_candidate() {
    let samples = known_samples();
    assert_eq!(check_key_expensive(Subkey(71), Subkey(8), &samples, SBOX), Ok(false));
    assert_eq!(check_key_expensive(Subkey(70), Subkey(9), &samples, SBOX), Ok(false));
    for (k0, k1) in [(65u8, 14u8), (67, 12), (73, 5), (74, 7), (78, 3), (79, 11)] {
        assert_eq!(check_key_expensive(Subkey(k0), Subkey(k1), &samples, SBOX), Ok(false));
    }
}

#[test]
fn accepted_keys_reproduce_every_checked_ciphertext() {
    let samples = known_samples();
    for k0 in 0..=255u8 {
        for k1 in [8u8, 9, 14, 200] {
            let cipher = Cipher::from_subkeys(SBOX, Subkey(k0), Subkey(k1)).unwrap();
            let reproduces = samples[..10].iter().all(|s| cipher.encrypt_block(s.plaintext) == s.ciphertext);
            assert_eq!(check_key_expensive(Subkey(k0), Subkey(k1), &samples, SBOX), Ok(reproduces));
        }
    }
}

#[test]
fn expensive_check_reads_the_first_ten_samples_only() {
    assert_eq!(CHECKED_SAMPLES, 10);
    let mut samples = known_samples();
    samples[10].ciphertext = Block(0);
    assert_eq!(check_key_expensive(Subkey(70), Subkey(8), &samples, SBOX), Ok(true));
    samples[9].ciphertext = Block(0);
    assert_eq!(check_key_expensive(Subkey(70), Subkey(8), &samples, SBOX), Ok(false));
}

#[test]
fn expensive_check_on_few_samples() {
    let samples = known_samples();
    assert_eq!(check_key_expensive(Subkey(1), Subkey(2), &[], SBOX), Ok(true));
    assert_eq!(check_key_expensive(Subkey(70), Subkey(8), &samples[..3], SBOX), Ok(true));
    assert_eq!(check_key_expensive(Subkey(71), Subkey(8), &samples[..3], SBOX), Ok(false));
}

#[test]
fn expensive_check_needs_a_permutation() {
    assert_eq!(
        check_key_expensive(Subkey(70), Subkey(8), &known_samples(), BROKEN),
        Err(InvalidSbox { missing: 4 })
    );
    assert_eq!(check_key_expensive(Subkey(70), Subkey(8), &[], BROKEN), Err(InvalidSbox { missing: 4 }));
}

#[test]
fn attack_recovers_the_keys_of_the_cipher() {
    let recovered = attack(&known_samples(), SBOX, Polarity::KeepMatch).unwrap();
    assert!(recovered.contains(&(Subkey(70), Subkey(8))));
    assert_eq!(recovered, pairs(&[(70, 8), (70, 8)]));
}

#[test]
fn attack_with_mismatch_polarity_loses_the_keys() {
    assert_eq!(attack(&known_samples(), SBOX, Polarity::KeepMismatch), Ok(vec![]));
}

#[test]
fn attack_needs_two_samples() {
    let samples = known_samples();
    assert_eq!(attack(&[], SBOX, Polarity::KeepMatch), Ok(vec![]));
    assert_eq!(attack(&samples[..1], SBOX, Polarity::KeepMatch), Ok(vec![]));
}

#[test]
fn attack_without_a_slid_pair_finds_nothing() {
    let samples = known_samples();
    assert_eq!(attack(&samples[..10], SBOX, Polarity::KeepMatch), Ok(vec![]));
}

#[test]
fn attack_on_one_slid_pair() {
    let samples = known_samples();
    let pair = [samples[10], samples[17]];
    let recovered = attack(&pair, SBOX, Polarity::KeepMatch).unwrap();
    assert!(recovered.contains(&(Subkey(70), Subkey(8))));
    let cipher_of = |k: &(Subkey, Subkey)| Cipher::from_subkeys(SBOX, k.0, k.1).unwrap();
    for keys in &recovered {
        let cipher = cipher_of(keys);
        assert_eq!(cipher.encrypt_block(Block(166)), Block(182));
        assert_eq!(cipher.encrypt_block(Block(25)), Block(217));
    }
}

#[test]
fn attack_needs_a_permutation() {
    assert_eq!(
        attack(&known_samples(), BROKEN, Polarity::KeepMatch),
        Err(InvalidSbox { missing: 4 })
    );
    assert_eq!(attack(&[], BROKEN, Polarity::KeepMatch), Err(InvalidSbox { missing: 4 }));
}

#[test]
fn attack_may_recover_more_than_one_pair() {
    let sbox: Sbox = [2, 14, 4, 13, 3, 11, 12, 15, 5, 6, 10, 0, 9, 8, 1, 7];
    let texts: [(u8, u8); 20] = [
        (233, 225), (124, 124), (140, 140), (176, 176), (6, 5), (164, 164), (225, 233),
        (175, 175), (79, 79), (228, 228), (195, 205), (250, 250), (219, 219), (80, 80),
        (200, 195), (253, 248), (29, 24), (24, 19), (150, 149), (242, 246),
    ];
    let samples: Vec<Sample> =
        texts.iter().map(|&(p, c)| Sample { plaintext: Block(p), ciphertext: Block(c) }).collect();
    let recovered = attack(&samples, sbox, Polarity::KeepMatch).unwrap();
    assert_eq!(
        recovered,
        pairs(&[(155, 5), (155, 5), (235, 229), (155, 5), (139, 133), (139, 133), (11, 149)])
    );
    assert!(recovered.contains(&(Subkey(0xeb), Subkey(0xe5))));
    let other = attack(&samples, sbox, Polarity::KeepMismatch).unwrap();
    assert_eq!(other, pairs(&[(123, 213)]));
}
