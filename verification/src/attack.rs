//! The slide attack: from two samples that may be one double round apart,
//! every pair of round keys that fits, sifted first by a cheap test and
//! then by full encryptions of known samples.

use crate::block::{Block, Subkey};
use crate::cipher::{encrypt, two_rounds, Cipher};
use crate::sbox::{
    generate_inverse_sbox, inverse_of, is_least_missing, is_permutation, substitute, InvalidSbox,
    Sbox,
};
use vstd::prelude::*;

verus! {

/// How many samples, from the first on, the expensive test encrypts.
pub const CHECKED_SAMPLES: usize = 10;

/// A plaintext and its ciphertext under the cipher that is attacked.
#[derive(Clone, Copy, Debug, PartialEq, Eq, Structural)]
pub struct Sample {
    pub plaintext: Block,
    pub ciphertext: Block,
}

impl View for Sample {
    type V = (u8, u8);

    open spec fn view(&self) -> (u8, u8) {
        (self.plaintext@, self.ciphertext@)
    }
}

impl DeepView for Sample {
    type V = (u8, u8);

    open spec fn deep_view(&self) -> (u8, u8) {
        (self.plaintext@, self.ciphertext@)
    }
}

/// Which outcome of the basic test lets a candidate through.
#[derive(Clone, Copy, Debug, PartialEq, Eq, Structural)]
pub enum Polarity {
    /// A candidate passes when it encrypts the plaintext to the ciphertext.
    KeepMatch,
    /// A candidate passes when it does not.
    KeepMismatch,
}

/// Every sample holds the ciphertext of its plaintext under the round keys
/// `keys` and the table `t`.
pub open spec fn samples_fit(samples: Seq<(u8, u8)>, keys: Seq<u8>, t: Seq<u8>) -> bool {
    forall|i: int|
        0 <= i < samples.len() ==> encrypt((#[trigger] samples[i]).0, keys, t) == samples[i].1
}

/// The pair of round keys that the guess `k0` leads to: the second key is
/// what separates one round on `pt1` from `pt2` with its last substitution
/// undone.
pub open spec fn candidate(pt1: u8, pt2: u8, t: Seq<u8>, k0: u8) -> (u8, u8) {
    (k0, substitute(pt1 ^ k0, t) ^ substitute(pt2, inverse_of(t)))
}

/// The candidates of all 256 guesses, in the order of the guesses.
pub open spec fn candidates(pt1: u8, pt2: u8, t: Seq<u8>) -> Seq<(u8, u8)> {
    Seq::new(256, |k: int| candidate(pt1, pt2, t, k as u8))
}

/// The basic test of the keys `k0`, `k1` on one sample.
pub open spec fn passes_basic(pt: u8, ct: u8, k0: u8, k1: u8, t: Seq<u8>, polarity: Polarity) -> bool {
    match polarity {
        Polarity::KeepMatch => encrypt(pt, seq![k0, k1], t) == ct,
        Polarity::KeepMismatch => encrypt(pt, seq![k0, k1], t) != ct,
    }
}

/// The cheap test of the keys `k0`, `k1` on a pair of samples: two rounds
/// lead from the first ciphertext to the second, and the first sample
/// passes the basic test.
pub open spec fn passes_cheap(
    pt1: u8,
    ct1: u8,
    ct2: u8,
    k0: u8,
    k1: u8,
    t: Seq<u8>,
    polarity: Polarity,
) -> bool {
    &&& two_rounds(ct1, k0, k1, t) == ct2
    &&& passes_basic(pt1, ct1, k0, k1, t, polarity)
}

/// The cheap test as a predicate on candidates.
pub open spec fn cheap_filter(pt1: u8, ct1: u8, ct2: u8, t: Seq<u8>, polarity: Polarity) -> spec_fn(
    (u8, u8),
) -> bool {
    |c: (u8, u8)| passes_cheap(pt1, ct1, ct2, c.0, c.1, t, polarity)
}

/// The expensive test of the keys `k0`, `k1`: they encrypt each of the
/// first [`CHECKED_SAMPLES`] samples, or each sample if there are fewer, to
/// its ciphertext.
pub open spec fn passes_expensive(k0: u8, k1: u8, samples: Seq<(u8, u8)>, t: Seq<u8>) -> bool {
    forall|i: int|
        0 <= i < samples.len() && i < CHECKED_SAMPLES ==> encrypt(
            (#[trigger] samples[i]).0,
            seq![k0, k1],
            t,
        ) == samples[i].1
}

/// The expensive test as a predicate on candidates.
pub open spec fn expensive_filter(samples: Seq<(u8, u8)>, t: Seq<u8>) -> spec_fn((u8, u8)) -> bool {
    |c: (u8, u8)| passes_expensive(c.0, c.1, samples, t)
}

/// Candidate generation: for each of the 256 values of the first round key,
/// the second round key that makes `pt2` the image of `pt1` under two
/// rounds. No guess is left out.
///
/// Fails exactly when `sbox` is no permutation.
pub fn recover_key_combinations(pt1: Block, pt2: Block, sbox: Sbox) -> (result: Result<
    Vec<(Subkey, Subkey)>,
    InvalidSbox,
>)
    ensures
        result is Ok <==> is_permutation(sbox@),
        result matches Ok(keys) ==> keys.deep_view() == candidates(pt1@, pt2@, sbox@),
        result matches Err(e) ==> is_least_missing(sbox@, e.missing),
{
    let inv_sbox: Sbox = match generate_inverse_sbox(sbox) {
        Ok(inverse) => inverse,
        Err(e) => {
            return Err(e);
        },
    };
    let unsubstituted = pt2.sub_bytes(inv_sbox);
    let mut key_combinations: Vec<(Subkey, Subkey)> = Vec::new();
    let mut guess: u16 = 0;
    while guess < 256
        invariant
            guess <= 256,
            inv_sbox@ == inverse_of(sbox@),
            unsubstituted@ == substitute(pt2@, inv_sbox@),
            key_combinations.len() == guess,
            forall|i: int|
                0 <= i < guess ==> (#[trigger] key_combinations@[i]).deep_view() == candidate(
                    pt1@,
                    pt2@,
                    sbox@,
                    i as u8,
                ),
        decreases 256 - guess,
    {
        let k0: Subkey = Subkey::from_byte(guess as u8);
        let pt = pt1.add_subkey(k0).sub_bytes(sbox);
        let k1 = Subkey::from_byte(pt.to_byte() ^ unsubstituted.to_byte());
        key_combinations.push((k0, k1));
        guess += 1;
    }
    assert(key_combinations.deep_view() =~= candidates(pt1@, pt2@, sbox@));
    Ok(key_combinations)
}

/// The basic test: encrypts `pt` under the round keys `k0`, `k1` and holds
/// the result against `ct`. Which outcome passes is for `polarity` to say.
///
/// Fails exactly when `sbox` is no permutation.
pub fn check_key_basic(
    pt: Block,
    ct: Block,
    k0: Subkey,
    k1: Subkey,
    sbox: Sbox,
    polarity: Polarity,
) -> (result: Result<bool, InvalidSbox>)
    ensures
        result is Ok <==> is_permutation(sbox@),
        result matches Ok(passed) ==> passed == passes_basic(pt@, ct@, k0@, k1@, sbox@, polarity),
        result matches Err(e) ==> is_least_missing(sbox@, e.missing),
{
    let cip = match Cipher::from_subkeys(sbox, k0, k1) {
        Ok(cipher) => cipher,
        Err(e) => {
            return Err(e);
        },
    };
    let same = cip.encrypt_block(pt).to_byte() == ct.to_byte();
    match polarity {
        Polarity::KeepMatch => Ok(same),
        Polarity::KeepMismatch => Ok(!same),
    }
}

/// The candidates of the sample pair at `i` and `j` that pass both tests,
/// in the order of the guesses; none where `i` and `j` are the same.
pub open spec fn verified_candidates(
    samples: Seq<(u8, u8)>,
    i: int,
    j: int,
    t: Seq<u8>,
    polarity: Polarity,
) -> Seq<(u8, u8)> {
    if i == j {
        Seq::empty()
    } else {
        candidates(samples[i].0, samples[j].0, t).filter(
            cheap_filter(samples[i].0, samples[i].1, samples[j].1, t, polarity),
        ).filter(expensive_filter(samples, t))
    }
}

/// What the sample at `i` yields when paired with each of the first `n`
/// samples in turn.
pub open spec fn recovered_in_row(
    samples: Seq<(u8, u8)>,
    i: int,
    n: int,
    t: Seq<u8>,
    polarity: Polarity,
) -> Seq<(u8, u8)>
    decreases n,
{
    if n <= 0 {
        Seq::empty()
    } else {
        recovered_in_row(samples, i, n - 1, t, polarity) + verified_candidates(
            samples,
            i,
            n - 1,
            t,
            polarity,
        )
    }
}

/// What the first `m` samples yield, each paired with every sample.
pub open spec fn recovered_in_rows(samples: Seq<(u8, u8)>, m: int, t: Seq<u8>, polarity: Polarity) -> Seq<
    (u8, u8),
>
    decreases m,
{
    if m <= 0 {
        Seq::empty()
    } else {
        recovered_in_rows(samples, m - 1, t, polarity) + recovered_in_row(
            samples,
            m - 1,
            samples.len() as int,
            t,
            polarity,
        )
    }
}

/// Everything the attack recovers from `samples`: for each ordered pair of
/// different positions, first position first, the candidates that pass both
/// tests. A pair of keys stands in it once for each pair of samples that
/// yields it.
pub open spec fn recovered(samples: Seq<(u8, u8)>, t: Seq<u8>, polarity: Polarity) -> Seq<(u8, u8)> {
    recovered_in_rows(samples, samples.len() as int, t, polarity)
}

/// Filtering one element more either appends that element or changes
/// nothing.
proof fn lemma_filter_next<A>(s: Seq<A>, pred: spec_fn(A) -> bool, n: int)
    requires
        0 <= n < s.len(),
    ensures
        s.take(n + 1).filter(pred) == if pred(s[n]) {
            s.take(n).filter(pred).push(s[n])
        } else {
            s.take(n).filter(pred)
        },
{
    reveal(Seq::filter);
    assert(s.take(n + 1).drop_last() =~= s.take(n));
}

/// The cheap test on all candidates of one pair of samples: those for which
/// two rounds lead from `ct1` to `ct2` and which pass the basic test on
/// `pt1` and `ct1`, in the order of the guesses.
///
/// Fails exactly when `sbox` is no permutation.
pub fn check_slid_pair(
    pt1: Block,
    pt2: Block,
    ct1: Block,
    ct2: Block,
    sbox: Sbox,
    polarity: Polarity,
) -> (result: Result<Vec<(Subkey, Subkey)>, InvalidSbox>)
    ensures
        result is Ok <==> is_permutation(sbox@),
        result matches Ok(keys) ==> keys.deep_view() == candidates(pt1@, pt2@, sbox@).filter(
            cheap_filter(pt1@, ct1@, ct2@, sbox@, polarity),
        ),
        result matches Err(e) ==> is_least_missing(sbox@, e.missing),
{
    let key_guesses = match recover_key_combinations(pt1, pt2, sbox) {
        Ok(keys) => keys,
        Err(e) => {
            return Err(e);
        },
    };
    let ghost all = candidates(pt1@, pt2@, sbox@);
    let ghost pred = cheap_filter(pt1@, ct1@, ct2@, sbox@, polarity);
    let mut kept: Vec<(Subkey, Subkey)> = Vec::new();
    let mut n: usize = 0;
    assert(all.take(0).filter(pred) =~= Seq::empty()) by {
        reveal(Seq::filter);
    }
    while n < key_guesses.len()
        invariant
            n <= key_guesses.len(),
            is_permutation(sbox@),
            key_guesses.deep_view() == all,
            pred == cheap_filter(pt1@, ct1@, ct2@, sbox@, polarity),
            kept.deep_view() == all.take(n as int).filter(pred),
        decreases key_guesses.len() - n,
    {
        let (k0, k1) = key_guesses[n];
        let ct = ct1.add_subkey(k0).sub_bytes(sbox).add_subkey(k1).sub_bytes(sbox);
        let mut passed = false;
        if ct.to_byte() == ct2.to_byte() {
            passed =
            match check_key_basic(pt1, ct1, k0, k1, sbox, polarity) {
                Ok(basic) => basic,
                Err(e) => {
                    return Err(e);
                },
            };
        }
        proof {
            assert(all[n as int] == (k0@, k1@));
            assert(passed == pred(all[n as int]));
            lemma_filter_next(all, pred, n as int);
        }
        if passed {
            let ghost before = kept.deep_view();
            kept.push((k0, k1));
            assert(kept.deep_view() =~= before.push((k0@, k1@)));
        }
        n += 1;
    }
    assert(all.take(n as int) =~= all);
    Ok(kept)
}

/// The expensive test: encrypts the first [`CHECKED_SAMPLES`] plaintexts,
/// or all if there are fewer, under the round keys `k0`, `k1`, and passes
/// the keys only if every ciphertext comes out as the sample has it.
///
/// Fails exactly when `sbox` is no permutation.
pub fn check_key_expensive(k0: Subkey, k1: Subkey, samples: &[Sample], sbox: Sbox) -> (result:
    Result<bool, InvalidSbox>)
    ensures
        result is Ok <==> is_permutation(sbox@),
        result matches Ok(passed) ==> passed == passes_expensive(
            k0@,
            k1@,
            samples.deep_view(),
            sbox@,
        ),
        result matches Err(e) ==> is_least_missing(sbox@, e.missing),
{
    let cip = match Cipher::from_subkeys(sbox, k0, k1) {
        Ok(cipher) => cipher,
        Err(e) => {
            return Err(e);
        },
    };
    let mut n: usize = 0;
    while n < samples.len() && n < CHECKED_SAMPLES
        invariant
            n <= samples.len(),
            n <= CHECKED_SAMPLES,
            is_permutation(sbox@),
            cip@.sbox == sbox@,
            cip@.subkeys == seq![k0@, k1@],
            forall|i: int|
                0 <= i < n ==> encrypt((#[trigger] samples.deep_view()[i]).0, seq![k0@, k1@], sbox@)
                    == samples.deep_view()[i].1,
        decreases samples.len() - n,
    {
        let sample = samples[n];
        if cip.encrypt_block(sample.plaintext).to_byte() != sample.ciphertext.to_byte() {
            assert(samples.deep_view()[n as int] == sample@);
            return Ok(false);
        }
        assert(samples.deep_view()[n as int] == sample@);
        n += 1;
    }
    Ok(true)
}

/// The search: takes every ordered pair of different samples for a slid
/// pair, sifts its candidates by the cheap test and then by the expensive
/// one, and gathers what is left. The result may be empty and may hold more
/// than one pair of keys.
///
/// Fails exactly when `sbox` is no permutation.
pub fn attack(samples: &[Sample], sbox: Sbox, polarity: Polarity) -> (result: Result<
    Vec<(Subkey, Subkey)>,
    InvalidSbox,
>)
    ensures
        result is Ok <==> is_permutation(sbox@),
        result matches Ok(keys) ==> keys.deep_view() == recovered(
            samples.deep_view(),
            sbox@,
            polarity,
        ),
        result matches Err(e) ==> is_least_missing(sbox@, e.missing),
{
    match generate_inverse_sbox(sbox) {
        Ok(_) => {},
        Err(e) => {
            return Err(e);
        },
    }
    let ghost all = samples.deep_view();
    let ghost pred = expensive_filter(all, sbox@);
    let mut found: Vec<(Subkey, Subkey)> = Vec::new();
    let mut i: usize = 0;
    assert(found.deep_view() =~= recovered_in_rows(all, 0, sbox@, polarity));
    while i < samples.len()
        invariant
            i <= samples.len(),
            is_permutation(sbox@),
            all == samples.deep_view(),
            pred == expensive_filter(all, sbox@),
            found.deep_view() == recovered_in_rows(all, i as int, sbox@, polarity),
        decreases samples.len() - i,
    {
        let pt1 = samples[i].plaintext;
        let ct1 = samples[i].ciphertext;
        let ghost before_row = found.deep_view();
        let mut j: usize = 0;
        assert(found.deep_view() =~= before_row + recovered_in_row(
            all,
            i as int,
            0,
            sbox@,
            polarity,
        ));
        while j < samples.len()
            invariant
                i < samples.len(),
                j <= samples.len(),
                is_permutation(sbox@),
                all == samples.deep_view(),
                pred == expensive_filter(all, sbox@),
                pt1 == samples@[i as int].plaintext,
                ct1 == samples@[i as int].ciphertext,
                found.deep_view() == before_row + recovered_in_row(
                    all,
                    i as int,
                    j as int,
                    sbox@,
                    polarity,
                ),
            decreases samples.len() - j,
        {
            let pt2 = samples[j].plaintext;
            let ct2 = samples[j].ciphertext;
            let ghost before_pair = found.deep_view();
            if i != j {
                let recovered_keys = match check_slid_pair(pt1, pt2, ct1, ct2, sbox, polarity) {
                    Ok(keys) => keys,
                    Err(e) => {
                        return Err(e);
                    },
                };
                let ghost cheap = recovered_keys.deep_view();
                let mut c: usize = 0;
                assert(found.deep_view() =~= before_pair + cheap.take(0).filter(pred)) by {
                    reveal(Seq::filter);
                }
                while c < recovered_keys.len()
                    invariant
                        c <= recovered_keys.len(),
                        is_permutation(sbox@),
                        all == samples.deep_view(),
                        pred == expensive_filter(all, sbox@),
                        cheap == recovered_keys.deep_view(),
                        found.deep_view() == before_pair + cheap.take(c as int).filter(pred),
                    decreases recovered_keys.len() - c,
                {
                    let (k0, k1) = recovered_keys[c];
                    let passed = match check_key_expensive(k0, k1, samples, sbox) {
                        Ok(passed) => passed,
                        Err(e) => {
                            return Err(e);
                        },
                    };
                    proof {
                        assert(cheap[c as int] == (k0@, k1@));
                        assert(passed == pred(cheap[c as int]));
                        lemma_filter_next(cheap, pred, c as int);
                    }
                    if passed {
                        let ghost before = found.deep_view();
                        found.push((k0, k1));
                        assert(found.deep_view() =~= before.push((k0@, k1@)));
                        assert(found.deep_view() =~= before_pair + cheap.take(c as int).filter(
                            pred,
                        ).push((k0@, k1@)));
                    }
                    c += 1;
                }
                assert(cheap.take(c as int) =~= cheap);
                assert(all[i as int] == samples@[i as int].deep_view());
                assert(all[j as int] == samples@[j as int].deep_view());
                assert(cheap.filter(pred) == verified_candidates(
                    all,
                    i as int,
                    j as int,
                    sbox@,
                    polarity,
                ));
            } else {
                assert(found.deep_view() =~= before_pair + verified_candidates(
                    all,
                    i as int,
                    j as int,
                    sbox@,
                    polarity,
                ));
            }
            assert(found.deep_view() =~= before_row + recovered_in_row(
                all,
                i as int,
                j as int + 1,
                sbox@,
                polarity,
            ));
            j += 1;
        }
        assert(found.deep_view() == recovered_in_rows(all, i as int + 1, sbox@, polarity));
        i += 1;
    }
    Ok(found)
}

} // verus!
