//! Blocks and round keys: 8-bit values.

use crate::bits::lemma_nibbles_in_range;
use crate::sbox::{substitute, Sbox};
use vstd::prelude::*;

verus! {

/// The unit of encryption: eight bits.
#[derive(Clone, Copy, Debug, PartialEq, Eq, Structural)]
pub struct Block(pub u8);

/// One round key: eight bits.
#[derive(Clone, Copy, Debug, PartialEq, Eq, Structural)]
pub struct Subkey(pub u8);

impl View for Block {
    type V = u8;

    open spec fn view(&self) -> u8 {
        self.0
    }
}

impl View for Subkey {
    type V = u8;

    open spec fn view(&self) -> u8 {
        self.0
    }
}

impl DeepView for Block {
    type V = u8;

    open spec fn deep_view(&self) -> u8 {
        self.0
    }
}

impl DeepView for Subkey {
    type V = u8;

    open spec fn deep_view(&self) -> u8 {
        self.0
    }
}

impl Block {
    /// The block whose bit `i` is bit `i` of `byte`.
    pub fn from_byte(byte: u8) -> (block: Block)
        ensures
            block@ == byte,
    {
        Block(byte)
    }

    /// The byte whose bit `i` is bit `i` of the block.
    pub fn to_byte(&self) -> (byte: u8)
        ensures
            byte == self@,
    {
        self.0
    }

    /// The bits of the block.
    pub fn get_data(&self) -> (data: &u8)
        ensures
            *data == self@,
    {
        &self.0
    }

    /// The bits of the block, to be changed in place.
    pub fn get_data_mut(&mut self) -> (data: &mut u8)
        ensures
            *data == old(self)@,
            final(self)@ == *final(data),
    {
        &mut self.0
    }

    /// Key addition: the bitwise exclusive or of the block and the round key.
    pub fn add_subkey(self, subkey: Subkey) -> (block: Block)
        ensures
            block@ == self@ ^ subkey@,
    {
        Block(self.0 ^ subkey.0)
    }

    /// Substitution: each nibble of the block is replaced, in place, by the
    /// entry of `sbox` at that nibble.
    pub fn sub_bytes(self, sbox: Sbox) -> (block: Block)
        ensures
            block@ == substitute(self@, sbox@),
    {
        proof {
            lemma_nibbles_in_range(self.0);
        }
        let low: u8 = sbox[(self.0 & 0x0f) as usize];
        let high: u8 = sbox[(self.0 >> 4) as usize];
        Block((low & 0x0f) | ((high & 0x0f) << 4))
    }
}

impl Subkey {
    /// The round key whose bit `i` is bit `i` of `byte`.
    pub fn from_byte(byte: u8) -> (subkey: Subkey)
        ensures
            subkey@ == byte,
    {
        Subkey(byte)
    }

    /// The byte whose bit `i` is bit `i` of the round key.
    pub fn to_byte(&self) -> (byte: u8)
        ensures
            byte == self@,
    {
        self.0
    }

    /// The bits of the round key.
    pub fn get_data(&self) -> (data: &u8)
        ensures
            *data == self@,
    {
        &self.0
    }

    /// The bits of the round key, to be changed in place.
    pub fn get_data_mut(&mut self) -> (data: &mut u8)
        ensures
            *data == old(self)@,
            final(self)@ == *final(data),
    {
        &mut self.0
    }
}

/// Adding the all-zero round key leaves a block as it is.
pub proof fn lemma_add_zero_subkey(b: u8)
    ensures
        b ^ 0 == b,
{
    assert(b ^ 0 == b) by (bit_vector);
}

/// Adding the same round key twice leaves a block as it is.
pub proof fn lemma_add_subkey_twice(b: u8, k: u8)
    ensures
        (b ^ k) ^ k == b,
{
    assert((b ^ k) ^ k == b) by (bit_vector);
}

/// The round key that key addition needs to turn `a` into `b` is `a ^ b`,
/// and no other.
pub proof fn lemma_subkey_between(a: u8, b: u8, k: u8)
    ensures
        a ^ k == b <==> k == a ^ b,
{
    assert(a ^ k == b <==> k == a ^ b) by (bit_vector);
}

} // verus!
