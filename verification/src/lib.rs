//! A toy substitution network on 8-bit blocks with a 16-bit key, and the slide
//! attack that recovers its two round keys from known plaintext/ciphertext
//! samples.
//!
//! Bits are numbered from the least significant end: bit `i` of a value `v`
//! is `(v >> i) & 1`. A block holds two nibbles, the low one in bits 0..4 and
//! the high one in bits 4..8; a key holds two round keys, the first in bits
//! 0..8.
//!
//! - [`bits`]: the widths and the nibble arithmetic.
//! - [`block`], [`key`], [`sbox`]: the values the cipher works on.
//! - [`cipher`]: rounds and encryption.
//! - [`attack`]: candidate generation, the two tests and the search.
//! - [`analysis`]: what the search finds, proved.
//! - [`source`], [`simulation`]: the seeded random source and a whole run.

pub mod analysis;

pub mod attack;

pub mod bits;

pub mod block;

pub mod cipher;

pub mod key;

pub mod sbox;

pub mod simulation;

pub mod source;
