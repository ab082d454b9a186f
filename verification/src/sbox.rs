//! The substitution box: a permutation of the sixteen nibble values, and its
//! inverse.

use crate::bits::{
    high_nibble, join_nibbles, lemma_join_of_split, lemma_nibbles_in_range, lemma_split_of_join,
    low_nibble, SBOX_SIZE,
};
use vstd::prelude::*;
use vstd::set_lib::{lemma_int_range, lemma_map_size, lemma_subset_equality, set_int_range};

verus! {

/// A substitution table: entry `i` is the nibble that replaces nibble `i`.
pub type Sbox = [u8; SBOX_SIZE];

/// Why a table is no substitution box: `missing` is the least nibble value
/// that no entry holds.
#[derive(Clone, Copy, Debug, PartialEq, Eq, Structural)]
pub struct InvalidSbox {
    pub missing: u8,
}

/// Every nibble value occurs in the sixteen entries of `t`. With sixteen
/// entries for sixteen values, each then occurs exactly once and no entry
/// holds anything else: see [`lemma_permutation_entries`].
pub open spec fn is_permutation(t: Seq<u8>) -> bool {
    &&& t.len() == 16
    &&& forall|v: u8| v < 16 ==> t.contains(v)
}

/// `v` is the least nibble value that does not occur in `t`.
pub open spec fn is_least_missing(t: Seq<u8>, v: u8) -> bool {
    &&& v < 16
    &&& !t.contains(v)
    &&& forall|w: u8| w < v ==> t.contains(w)
}

/// A position of `t` that holds `v`.
pub open spec fn preimage(t: Seq<u8>, v: u8) -> int {
    choose|x: int| 0 <= x < t.len() && t[x] == v
}

/// The table that maps each nibble value to the position at which `t` holds
/// it.
pub open spec fn inverse_of(t: Seq<u8>) -> Seq<u8> {
    Seq::new(16, |v: int| preimage(t, v as u8) as u8)
}

/// The table that maps every nibble to itself.
pub open spec fn identity_table() -> Seq<u8> {
    Seq::new(16, |i: int| i as u8)
}

/// The byte that comes of replacing each nibble of `b` by the entry of `t`
/// at that nibble, in place. Of an entry only bits 0..4 are used.
pub open spec fn substitute(b: u8, t: Seq<u8>) -> u8 {
    join_nibbles(t[low_nibble(b) as int], t[high_nibble(b) as int])
}

/// The set of the sixteen nibble values has sixteen elements.
proof fn lemma_nibble_set()
    ensures
        Set::new(|v: u8| v < 16).finite(),
        Set::new(|v: u8| v < 16).len() == 16,
{
    let ints = set_int_range(0, 16);
    let nibbles = Set::new(|v: u8| v < 16);
    let narrow = |i: int| i as u8;
    lemma_int_range(0, 16);
    assert forall|v: u8| nibbles.contains(v) implies #[trigger] ints.map(narrow).contains(v) by {
        assert(ints.contains(v as int) && narrow(v as int) == v);
    }
    assert(ints.map(narrow) =~= nibbles);
    lemma_map_size(ints, nibbles, narrow);
}

/// In a permutation every entry is a nibble value and no two entries are
/// equal.
pub proof fn lemma_permutation_entries(t: Seq<u8>)
    requires
        is_permutation(t),
    ensures
        forall|x: int| 0 <= x < 16 ==> #[trigger] t[x] < 16,
        forall|x: int, y: int| 0 <= x < 16 && 0 <= y < 16 && x != y ==> t[x] != t[y],
{
    let nibbles = Set::new(|v: u8| v < 16);
    let held = t.to_set();
    lemma_nibble_set();
    t.lemma_cardinality_of_set();
    assert(held.finite()) by {
        broadcast use vstd::seq_lib::seq_to_set_is_finite;

    }
    assert(nibbles.subset_of(held)) by {
        assert forall|v: u8| nibbles.contains(v) implies held.contains(v) by {
            assert(t.contains(v));
        }
    }
    vstd::set_lib::lemma_len_subset(nibbles, held);
    lemma_subset_equality(nibbles, held);
    assert forall|x: int| 0 <= x < 16 implies #[trigger] t[x] < 16 by {
        assert(held.contains(t[x]));
    }
    t.lemma_no_dup_set_cardinality();
}

/// In a permutation each nibble value has a position, and the entry there
/// is that value.
pub proof fn lemma_preimage(t: Seq<u8>, v: u8)
    requires
        is_permutation(t),
        v < 16,
    ensures
        0 <= preimage(t, v) < 16,
        t[preimage(t, v)] == v,
        inverse_of(t)[v as int] == preimage(t, v),
{
    assert(t.contains(v));
}

/// The inverse table undoes the table: looking up an entry of `t` in the
/// inverse gives the entry's position.
pub proof fn lemma_inverse_undoes(t: Seq<u8>, x: int)
    requires
        is_permutation(t),
        0 <= x < 16,
    ensures
        t[x] < 16,
        inverse_of(t)[t[x] as int] == x,
{
    lemma_permutation_entries(t);
    lemma_preimage(t, t[x]);
}

/// The table undoes its inverse.
pub proof fn lemma_table_undoes_inverse(t: Seq<u8>, v: u8)
    requires
        is_permutation(t),
        v < 16,
    ensures
        inverse_of(t)[v as int] < 16,
        t[inverse_of(t)[v as int] as int] == v,
{
    lemma_preimage(t, v);
}

/// The inverse of a permutation is a permutation.
pub proof fn lemma_inverse_is_permutation(t: Seq<u8>)
    requires
        is_permutation(t),
    ensures
        is_permutation(inverse_of(t)),
{
    let inv = inverse_of(t);
    assert forall|v: u8| v < 16 implies inv.contains(v) by {
        lemma_inverse_undoes(t, v as int);
        assert(inv[t[v as int] as int] == v);
    }
}

/// Inverting twice gives the table back.
pub proof fn lemma_inverse_is_involution(t: Seq<u8>)
    requires
        is_permutation(t),
    ensures
        inverse_of(inverse_of(t)) == t,
{
    let inv = inverse_of(t);
    lemma_inverse_is_permutation(t);
    lemma_permutation_entries(inv);
    assert forall|v: int| 0 <= v < 16 implies inverse_of(inv)[v] == t[v] by {
        lemma_inverse_undoes(t, v);
        lemma_preimage(inv, v as u8);
    }
    assert(inverse_of(inv) =~= t);
}

/// The identity table is a permutation.
pub proof fn lemma_identity_is_permutation()
    ensures
        is_permutation(identity_table()),
{
    let id = identity_table();
    assert forall|v: u8| v < 16 implies id.contains(v) by {
        assert(id[v as int] == v);
    }
}

/// A table that holds the same entries as a permutation, each as often, is a
/// permutation.
pub proof fn lemma_rearranged_permutation(t: Seq<u8>, u: Seq<u8>)
    requires
        is_permutation(t),
        t.to_multiset() == u.to_multiset(),
    ensures
        is_permutation(u),
{
    t.to_multiset_ensures();
    u.to_multiset_ensures();
    assert(u.len() == 16);
    assert forall|v: u8| v < 16 implies u.contains(v) by {
        assert(t.contains(v));
        assert(u.to_multiset().count(v) > 0);
    }
}

/// Substituting through the identity table changes nothing.
pub proof fn lemma_substitute_identity(b: u8)
    ensures
        substitute(b, identity_table()) == b,
{
    lemma_nibbles_in_range(b);
    lemma_join_of_split(b);
}

/// Substituting through a permutation and then through its inverse gives
/// the byte back.
pub proof fn lemma_substitute_then_inverse(b: u8, t: Seq<u8>)
    requires
        is_permutation(t),
    ensures
        substitute(substitute(b, t), inverse_of(t)) == b,
{
    let lo = low_nibble(b);
    let hi = high_nibble(b);
    lemma_nibbles_in_range(b);
    lemma_inverse_undoes(t, lo as int);
    lemma_inverse_undoes(t, hi as int);
    lemma_split_of_join(t[lo as int], t[hi as int]);
    lemma_join_of_split(b);
}

/// Substituting through the inverse of a permutation and then through the
/// permutation gives the byte back.
pub proof fn lemma_inverse_then_substitute(b: u8, t: Seq<u8>)
    requires
        is_permutation(t),
    ensures
        substitute(substitute(b, inverse_of(t)), t) == b,
{
    lemma_inverse_is_permutation(t);
    lemma_inverse_is_involution(t);
    lemma_substitute_then_inverse(b, inverse_of(t));
}

/// The identity table.
pub fn identity_sbox() -> (sbox: Sbox)
    ensures
        sbox@ == identity_table(),
{
    let mut sbox: Sbox = [0u8; SBOX_SIZE];
    let mut i: u8 = 0;
    while i < 16
        invariant
            i <= 16,
            forall|j: int| 0 <= j < i ==> sbox@[j] == j as u8,
        decreases 16 - i,
    {
        sbox[i as usize] = i;
        i += 1;
    }
    assert(sbox@ =~= identity_table());
    sbox
}

/// Inverts a substitution table by looking each nibble value up in it.
///
/// Succeeds exactly on permutations; on any other table it names the least
/// nibble value that the table does not hold.
pub fn generate_inverse_sbox(sbox: Sbox) -> (result: Result<Sbox, InvalidSbox>)
    ensures
        result is Ok <==> is_permutation(sbox@),
        result matches Ok(inverse) ==> {
            &&& inverse@ == inverse_of(sbox@)
            &&& is_permutation(inverse@)
            &&& forall|x: int| 0 <= x < 16 ==> inverse@[#[trigger] sbox@[x] as int] == x
        },
        result matches Err(e) ==> is_least_missing(sbox@, e.missing),
{
    let mut inverse: Sbox = [0u8; SBOX_SIZE];
    let mut v: u8 = 0;
    while v < 16
        invariant
            v <= 16,
            forall|w: u8| w < v ==> sbox@.contains(w),
            forall|w: int|
                0 <= w < v ==> 0 <= #[trigger] inverse@[w] < 16 && sbox@[inverse@[w] as int] == w,
        decreases 16 - v,
    {
        let mut x: usize = 0;
        while x < 16 && sbox[x] != v
            invariant
                x <= 16,
                forall|y: int| 0 <= y < x ==> sbox@[y] != v,
            decreases 16 - x,
        {
            x += 1;
        }
        if x == 16 {
            assert(!sbox@.contains(v));
            return Err(InvalidSbox { missing: v });
        }
        inverse[v as usize] = x as u8;
        v += 1;
    }
    proof {
        lemma_permutation_entries(sbox@);
        assert forall|w: int| 0 <= w < 16 implies inverse@[w] == inverse_of(sbox@)[w] by {
            lemma_preimage(sbox@, w as u8);
        }
        assert(inverse@ =~= inverse_of(sbox@));
        lemma_inverse_is_permutation(sbox@);
        assert forall|x: int| 0 <= x < 16 implies inverse@[#[trigger] sbox@[x] as int] == x by {
            lemma_inverse_undoes(sbox@, x);
        }
    }
    Ok(inverse)
}

} // verus!
