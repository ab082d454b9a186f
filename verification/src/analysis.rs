//! What the attack's result holds: which pairs of keys stand in it, that
//! none of them fails a checked sample, and on which samples the keys of
//! the cipher are among them.

use crate::attack::{
    candidate, candidates, cheap_filter, expensive_filter, passes_cheap, passes_expensive,
    recovered, recovered_in_row, recovered_in_rows, samples_fit, verified_candidates, Polarity,
};
use crate::block::lemma_subkey_between;
use crate::cipher::{lemma_encryption_slides, two_rounds};
use crate::sbox::{
    inverse_of, is_permutation, lemma_inverse_then_substitute, lemma_substitute_then_inverse,
    substitute,
};
use vstd::prelude::*;

verus! {

/// The samples at `i` and `j`, two different positions, yield the pair of
/// keys `c`: it is the candidate of its own first key, and it passes the
/// cheap test on the two samples and the expensive test.
pub open spec fn yields(
    samples: Seq<(u8, u8)>,
    i: int,
    j: int,
    t: Seq<u8>,
    polarity: Polarity,
    c: (u8, u8),
) -> bool {
    &&& 0 <= i < samples.len()
    &&& 0 <= j < samples.len()
    &&& i != j
    &&& c == candidate(samples[i].0, samples[j].0, t, c.0)
    &&& passes_cheap(samples[i].0, samples[i].1, samples[j].1, c.0, c.1, t, polarity)
    &&& passes_expensive(c.0, c.1, samples, t)
}

/// The candidate of a guess holds the one second round key with which two
/// rounds lead from the first plaintext to the second.
pub proof fn lemma_candidate_is_the_only_fit(pt1: u8, pt2: u8, t: Seq<u8>, k0: u8, k1: u8)
    requires
        is_permutation(t),
    ensures
        two_rounds(pt1, k0, k1, t) == pt2 <==> candidate(pt1, pt2, t, k0) == (k0, k1),
{
    let after_one = substitute(pt1 ^ k0, t);
    let before_last = substitute(pt2, inverse_of(t));
    lemma_subkey_between(after_one, before_last, k1);
    lemma_substitute_then_inverse(after_one ^ k1, t);
    lemma_inverse_then_substitute(pt2, t);
}

/// An element of two sequences put together is an element of one of them.
proof fn lemma_contains_add<A>(a: Seq<A>, b: Seq<A>, c: A)
    ensures
        (a + b).contains(c) <==> a.contains(c) || b.contains(c),
{
    if a.contains(c) {
        let i = choose|i: int| 0 <= i < a.len() && a[i] == c;
        assert((a + b)[i] == c);
    }
    if b.contains(c) {
        let i = choose|i: int| 0 <= i < b.len() && b[i] == c;
        assert((a + b)[a.len() + i] == c);
    }
    if (a + b).contains(c) {
        let i = choose|i: int| 0 <= i < (a + b).len() && (a + b)[i] == c;
        if i < a.len() {
            assert(a[i] == c);
        } else {
            assert(b[i - a.len()] == c);
        }
    }
}

/// What one pair of samples contributes is what it yields.
proof fn lemma_pair_holds(
    samples: Seq<(u8, u8)>,
    i: int,
    j: int,
    t: Seq<u8>,
    polarity: Polarity,
    c: (u8, u8),
)
    requires
        0 <= i < samples.len(),
        0 <= j < samples.len(),
    ensures
        verified_candidates(samples, i, j, t, polarity).contains(c) <==> yields(
            samples,
            i,
            j,
            t,
            polarity,
            c,
        ),
{
    if i != j {
        let all = candidates(samples[i].0, samples[j].0, t);
        let cheap = cheap_filter(samples[i].0, samples[i].1, samples[j].1, t, polarity);
        let expensive = expensive_filter(samples, t);
        let sifted = all.filter(cheap);
        let kept = sifted.filter(expensive);
        if kept.contains(c) {
            let n = choose|n: int| 0 <= n < kept.len() && kept[n] == c;
            sifted.lemma_filter_pred(expensive, n);
            sifted.lemma_filter_contains_rev(expensive, c);
            let m = choose|m: int| 0 <= m < sifted.len() && sifted[m] == c;
            all.lemma_filter_pred(cheap, m);
            all.lemma_filter_contains_rev(cheap, c);
            let k = choose|k: int| 0 <= k < all.len() && all[k] == c;
            assert(c == candidate(samples[i].0, samples[j].0, t, k as u8));
        }
        if yields(samples, i, j, t, polarity, c) {
            assert(all[c.0 as int] == c);
            all.lemma_filter_contains(cheap, c.0 as int);
            let m = choose|m: int| 0 <= m < sifted.len() && sifted[m] == c;
            sifted.lemma_filter_contains(expensive, m);
        }
    }
}

/// What a sample contributes with the first `n` samples is what it yields
/// with one of them.
proof fn lemma_row_holds(
    samples: Seq<(u8, u8)>,
    i: int,
    n: int,
    t: Seq<u8>,
    polarity: Polarity,
    c: (u8, u8),
)
    requires
        0 <= i < samples.len(),
        0 <= n <= samples.len(),
    ensures
        recovered_in_row(samples, i, n, t, polarity).contains(c) <==> exists|j: int|
            0 <= j < n && yields(samples, i, j, t, polarity, c),
    decreases n,
{
    if n > 0 {
        lemma_row_holds(samples, i, n - 1, t, polarity, c);
        lemma_pair_holds(samples, i, n - 1, t, polarity, c);
        lemma_contains_add(
            recovered_in_row(samples, i, n - 1, t, polarity),
            verified_candidates(samples, i, n - 1, t, polarity),
            c,
        );
    }
}

/// What the first `m` samples contribute is what one of them yields with
/// some sample.
proof fn lemma_rows_hold(samples: Seq<(u8, u8)>, m: int, t: Seq<u8>, polarity: Polarity, c: (u8, u8))
    requires
        0 <= m <= samples.len(),
    ensures
        recovered_in_rows(samples, m, t, polarity).contains(c) <==> exists|i: int, j: int|
            0 <= i < m && yields(samples, i, j, t, polarity, c),
    decreases m,
{
    if m > 0 {
        lemma_rows_hold(samples, m - 1, t, polarity, c);
        lemma_row_holds(samples, m - 1, samples.len() as int, t, polarity, c);
        lemma_contains_add(
            recovered_in_rows(samples, m - 1, t, polarity),
            recovered_in_row(samples, m - 1, samples.len() as int, t, polarity),
            c,
        );
    }
}

/// A pair of keys is recovered exactly when two different samples yield it.
pub proof fn lemma_recovered_holds(samples: Seq<(u8, u8)>, t: Seq<u8>, polarity: Polarity, c: (u8, u8))
    ensures
        recovered(samples, t, polarity).contains(c) <==> exists|i: int, j: int|
            yields(samples, i, j, t, polarity, c),
{
    lemma_rows_hold(samples, samples.len() as int, t, polarity, c);
}

/// Soundness of the expensive test within the search: every recovered pair
/// of keys encrypts each checked sample to its ciphertext.
pub proof fn lemma_recovered_keys_pass(
    samples: Seq<(u8, u8)>,
    t: Seq<u8>,
    polarity: Polarity,
    c: (u8, u8),
)
    requires
        recovered(samples, t, polarity).contains(c),
    ensures
        passes_expensive(c.0, c.1, samples, t),
{
    lemma_recovered_holds(samples, t, polarity, c);
}

/// With the basic test that keeps mismatches, keys that fit every sample
/// are never recovered: the test throws out exactly the keys that made the
/// samples.
pub proof fn lemma_mismatch_loses_fitting_keys(samples: Seq<(u8, u8)>, t: Seq<u8>, k0: u8, k1: u8)
    requires
        samples_fit(samples, seq![k0, k1], t),
    ensures
        !recovered(samples, t, Polarity::KeepMismatch).contains((k0, k1)),
{
    lemma_recovered_holds(samples, t, Polarity::KeepMismatch, (k0, k1));
}

/// With the basic test that keeps matches, the attack finds the keys of the
/// cipher as soon as the samples hold a slid pair: two samples, at
/// different positions, of which the second plaintext is the first one
/// moved on by two rounds.
pub proof fn lemma_slid_pair_recovers_keys(
    samples: Seq<(u8, u8)>,
    t: Seq<u8>,
    k0: u8,
    k1: u8,
    i: int,
    j: int,
)
    requires
        is_permutation(t),
        samples_fit(samples, seq![k0, k1], t),
        0 <= i < samples.len(),
        0 <= j < samples.len(),
        i != j,
        samples[j].0 == two_rounds(samples[i].0, k0, k1, t),
    ensures
        recovered(samples, t, Polarity::KeepMatch).contains((k0, k1)),
{
    let pt1 = samples[i].0;
    let pt2 = samples[j].0;
    lemma_candidate_is_the_only_fit(pt1, pt2, t, k0, k1);
    lemma_encryption_slides(pt1, k0, k1, t);
    assert(yields(samples, i, j, t, Polarity::KeepMatch, (k0, k1)));
    lemma_recovered_holds(samples, t, Polarity::KeepMatch, (k0, k1));
}

} // verus!
