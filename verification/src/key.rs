//! The secret key and its schedule: the key's bits, cut into round keys.

use crate::bits::{BLOCK_BITS, KEY_BITS};
use crate::block::Subkey;
use crate::source::next_two_bytes;
use rand_seeder::SipRng;
use vstd::prelude::*;

verus! {

/// The secret: sixteen bits.
#[derive(Clone, Copy, Debug, PartialEq, Eq, Structural)]
pub struct Key(pub u16);

impl View for Key {
    type V = u16;

    open spec fn view(&self) -> u16 {
        self.0
    }
}

impl DeepView for Key {
    type V = u16;

    open spec fn deep_view(&self) -> u16 {
        self.0
    }
}

/// The key whose bits 0..8 are `low` and whose bits 8..16 are `high`.
pub open spec fn key_of_bytes(low: u8, high: u8) -> u16 {
    (low as u16) | ((high as u16) << 8)
}

/// The schedule of a key: its bits in consecutive groups of eight, from bit
/// 0 upwards.
pub open spec fn schedule(key: u16) -> Seq<u8> {
    seq![(key & 0xff) as u8, (key >> 8) as u8]
}

/// The bits of a schedule, one round key after the other.
pub open spec fn key_of_schedule(subkeys: Seq<u8>) -> u16 {
    key_of_bytes(subkeys[0], subkeys[1])
}

/// A schedule has as many round keys as the key has groups of eight bits,
/// and their bits, put together in order, are the key's.
pub proof fn lemma_schedule_rebuilds_key(key: u16)
    ensures
        schedule(key).len() == KEY_BITS / BLOCK_BITS,
        key_of_schedule(schedule(key)) == key,
{
    assert((((key & 0xff) as u8) as u16) | ((((key >> 8) as u8) as u16) << 8) == key)
        by (bit_vector);
}

/// The schedule of a key made of two bytes is those bytes.
pub proof fn lemma_schedule_of_bytes(low: u8, high: u8)
    ensures
        schedule(key_of_bytes(low, high)) == seq![low, high],
{
    let key = key_of_bytes(low, high);
    assert((((low as u16) | ((high as u16) << 8)) & 0xff) as u8 == low) by (bit_vector);
    assert((((low as u16) | ((high as u16) << 8)) >> 8) as u8 == high) by (bit_vector);
    assert(schedule(key) =~= seq![low, high]);
}

impl Key {
    /// The key held in two bytes, bits 0..8 in the first.
    pub fn from_bytes(bytes: [u8; 2]) -> (key: Key)
        ensures
            key@ == key_of_bytes(bytes@[0], bytes@[1]),
    {
        let low: u16 = bytes[0] as u16;
        let high: u16 = bytes[1] as u16;
        Key(low | (high << 8))
    }

    /// Replaces the key by the next sixteen bits of `rng`, the first byte
    /// drawn in bits 0..8. The new key is whatever the generator gives.
    pub fn random_key(&mut self, rng: &mut SipRng) {
        let bytes = next_two_bytes(rng);
        *self = Key::from_bytes(bytes);
    }

    /// The bits of the key.
    pub fn get_data(&self) -> (data: &u16)
        ensures
            *data == self@,
    {
        &self.0
    }

    /// The bits of the key, to be changed in place.
    pub fn get_data_mut(&mut self) -> (data: &mut u16)
        ensures
            *data == old(self)@,
            final(self)@ == *final(data),
    {
        &mut self.0
    }

    /// The key schedule: one round key for each group of eight bits of the
    /// key, from bit 0 upwards.
    pub fn split_to_keys(&self) -> (subkeys: Vec<Subkey>)
        ensures
            subkeys.deep_view() == schedule(self@),
            subkeys.len() == KEY_BITS / BLOCK_BITS,
            key_of_schedule(subkeys.deep_view()) == self@,
    {
        let key: u16 = self.0;
        let low: u8 = (key & 0xff) as u8;
        let high: u8 = (key >> 8) as u8;
        let mut subkeys: Vec<Subkey> = Vec::new();
        subkeys.push(Subkey(low));
        subkeys.push(Subkey(high));
        proof {
            lemma_schedule_rebuilds_key(key);
            assert(subkeys.deep_view() =~= schedule(key));
        }
        subkeys
    }
}

} // verus!
