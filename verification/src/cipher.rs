//! The cipher: a fixed number of rounds, each a key addition followed by a
//! substitution, with the round keys taken in turn.

use crate::bits::ROUNDS;
use crate::block::{Block, Subkey};
use crate::key::{schedule, Key};
use crate::sbox::{
    generate_inverse_sbox, is_least_missing, is_permutation, substitute, InvalidSbox, Sbox,
};
use vstd::prelude::*;

verus! {

/// One round: add the round key, then substitute.
pub open spec fn round(b: u8, k: u8, t: Seq<u8>) -> u8 {
    substitute(b ^ k, t)
}

/// The first `n` rounds of an encryption of `b`: round `r`, counted from 0,
/// uses the round key at `r` modulo the number of round keys.
pub open spec fn encrypt_rounds(b: u8, keys: Seq<u8>, t: Seq<u8>, n: nat) -> u8
    decreases n,
{
    if n == 0 {
        b
    } else {
        round(encrypt_rounds(b, keys, t, (n - 1) as nat), keys[(n - 1) % (keys.len() as int)], t)
    }
}

/// The ciphertext of `b` under the round keys `keys` and the table `t`.
pub open spec fn encrypt(b: u8, keys: Seq<u8>, t: Seq<u8>) -> u8 {
    encrypt_rounds(b, keys, t, ROUNDS as nat)
}

/// Two consecutive rounds, the first with `k0` and the second with `k1`:
/// one turn through a schedule of two round keys.
pub open spec fn two_rounds(b: u8, k0: u8, k1: u8, t: Seq<u8>) -> u8 {
    round(round(b, k0, t), k1, t)
}

/// With two round keys the schedule repeats after two rounds: `n + 2`
/// rounds on a block are `n` rounds on the block that two rounds make of
/// it.
pub proof fn lemma_schedule_repeats(b: u8, k0: u8, k1: u8, t: Seq<u8>, n: nat)
    ensures
        encrypt_rounds(b, seq![k0, k1], t, n + 2) == encrypt_rounds(
            two_rounds(b, k0, k1, t),
            seq![k0, k1],
            t,
            n,
        ),
    decreases n,
{
    let keys = seq![k0, k1];
    assert(keys.len() == 2 && keys[0] == k0 && keys[1] == k1);
    if n == 0 {
        assert(encrypt_rounds(b, keys, t, 0) == b);
        assert(encrypt_rounds(b, keys, t, 1) == round(encrypt_rounds(b, keys, t, 0), keys[0], t));
        assert(encrypt_rounds(b, keys, t, 2) == round(encrypt_rounds(b, keys, t, 1), keys[1], t));
    } else {
        lemma_schedule_repeats(b, k0, k1, t, (n - 1) as nat);
        assert((n + 1) as int % 2 == (n - 1) as int % 2);
    }
}

/// Encryption slides: the ciphertext of a block moved on by two rounds is
/// the block's ciphertext moved on by two rounds.
pub proof fn lemma_encryption_slides(b: u8, k0: u8, k1: u8, t: Seq<u8>)
    ensures
        encrypt(two_rounds(b, k0, k1, t), seq![k0, k1], t) == two_rounds(
            encrypt(b, seq![k0, k1], t),
            k0,
            k1,
            t,
        ),
{
    let keys = seq![k0, k1];
    assert(keys.len() == 2 && keys[0] == k0 && keys[1] == k1);
    lemma_schedule_repeats(b, k0, k1, t, ROUNDS as nat);
    assert(encrypt_rounds(b, keys, t, 101) == round(encrypt_rounds(b, keys, t, 100), keys[0], t));
    assert(encrypt_rounds(b, keys, t, 102) == round(encrypt_rounds(b, keys, t, 101), keys[1], t));
}

/// What a cipher is made of.
pub struct CipherModel {
    /// The substitution table.
    pub sbox: Seq<u8>,
    /// The round keys, in the order of their use.
    pub subkeys: Seq<u8>,
}

/// A substitution box, which is public, and the round keys, which are not.
///
/// The box of a cipher is a permutation and its schedule holds two round
/// keys; no cipher exists of which this does not hold.
pub struct Cipher {
    sbox: Sbox,
    subkeys: Vec<Subkey>,
}

impl View for Cipher {
    type V = CipherModel;

    closed spec fn view(&self) -> CipherModel {
        CipherModel { sbox: self.sbox@, subkeys: self.subkeys.deep_view() }
    }
}

impl Cipher {
    #[verifier::type_invariant]
    spec fn well_formed(self) -> bool {
        &&& is_permutation(self.sbox@)
        &&& self.subkeys@.len() == 2
    }

    /// The cipher with the box `sbox` and the schedule of `key`.
    ///
    /// Fails exactly when `sbox` is no permutation.
    pub fn new(sbox: Sbox, key: Key) -> (result: Result<Cipher, InvalidSbox>)
        ensures
            result is Ok <==> is_permutation(sbox@),
            result matches Ok(cipher) ==> cipher@.sbox == sbox@ && cipher@.subkeys == schedule(
                key@,
            ),
            result matches Err(e) ==> is_least_missing(sbox@, e.missing),
    {
        match generate_inverse_sbox(sbox) {
            Ok(_) => Ok(Cipher::assemble(sbox, key.split_to_keys())),
            Err(e) => Err(e),
        }
    }

    /// The cipher with the box `sbox` and the round keys `k0` and `k1`, in
    /// this order.
    ///
    /// Fails exactly when `sbox` is no permutation.
    pub fn from_subkeys(sbox: Sbox, k0: Subkey, k1: Subkey) -> (result: Result<Cipher, InvalidSbox>)
        ensures
            result is Ok <==> is_permutation(sbox@),
            result matches Ok(cipher) ==> cipher@.sbox == sbox@ && cipher@.subkeys == seq![
                k0@,
                k1@,
            ],
            result matches Err(e) ==> is_least_missing(sbox@, e.missing),
    {
        match generate_inverse_sbox(sbox) {
            Ok(_) => {
                let mut subkeys: Vec<Subkey> = Vec::new();
                subkeys.push(k0);
                subkeys.push(k1);
                assert(subkeys.deep_view() =~= seq![k0@, k1@]);
                Ok(Cipher::assemble(sbox, subkeys))
            },
            Err(e) => Err(e),
        }
    }

    /// The cipher with a box that is known to be a permutation and a
    /// schedule that is known to hold two round keys.
    pub(crate) fn assemble(sbox: Sbox, subkeys: Vec<Subkey>) -> (cipher: Cipher)
        requires
            is_permutation(sbox@),
            subkeys.len() == 2,
        ensures
            cipher@.sbox == sbox@,
            cipher@.subkeys == subkeys.deep_view(),
    {
        Cipher { sbox, subkeys }
    }

    /// The substitution box.
    pub fn sbox(&self) -> (sbox: Sbox)
        ensures
            sbox@ == self@.sbox,
            is_permutation(sbox@),
    {
        proof {
            use_type_invariant(self);
        }
        self.sbox
    }

    /// The round keys, in the order of their use.
    pub fn subkeys(&self) -> (subkeys: &Vec<Subkey>)
        ensures
            subkeys.deep_view() == self@.subkeys,
            subkeys.len() == 2,
    {
        proof {
            use_type_invariant(self);
        }
        &self.subkeys
    }

    /// One round on `block` with the round key `subkey`.
    pub fn encrypt_round(&self, block: Block, subkey: Subkey) -> (out: Block)
        ensures
            out@ == round(block@, subkey@, self@.sbox),
    {
        let block = block.add_subkey(subkey);
        block.sub_bytes(self.sbox)
    }

    /// Encrypts one block. The result depends on the block, the box and the
    /// round keys, and on nothing else.
    pub fn encrypt_block(&self, block: Block) -> (out: Block)
        ensures
            out@ == encrypt(block@, self@.subkeys, self@.sbox),
    {
        proof {
            use_type_invariant(self);
        }
        let ghost keys = self@.subkeys;
        let ghost table = self@.sbox;
        let mut state = block;
        let mut round_num: u16 = 0;
        while round_num < ROUNDS
            invariant
                round_num <= ROUNDS,
                self.subkeys@.len() == 2,
                keys == self@.subkeys,
                table == self@.sbox,
                state@ == encrypt_rounds(block@, keys, table, round_num as nat),
            decreases ROUNDS - round_num,
        {
            let turn: usize = (round_num as usize) % self.subkeys.len();
            state = self.encrypt_round(state, self.subkeys[turn]);
            round_num += 1;
        }
        state
    }
}

} // verus!
