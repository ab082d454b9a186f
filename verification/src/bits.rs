//! Widths of the cipher and the nibble arithmetic that everything else is
//! stated in.

use vstd::prelude::*;

verus! {

/// Width of the secret key in bits.
pub const KEY_BITS: usize = 16;

/// Width of the secret key in bytes.
pub const KEY_SIZE: usize = 2;

/// Width of a block, and of a round key, in bits.
pub const BLOCK_BITS: usize = 8;

/// Width of a block in bytes.
pub const BLOCK_SIZE: usize = 1;

/// Number of rounds of one encryption.
pub const ROUNDS: u16 = 100;

/// Width of the input and of the output of the substitution box in bits.
pub const SBOX_BITS: usize = 4;

/// Number of entries of the substitution box.
pub const SBOX_SIZE: usize = 16;

/// The widths fit together: the key holds a whole number of round keys, two
/// of them; a block holds a whole number of nibbles; and the substitution
/// box has an entry for each value of a nibble.
pub proof fn lemma_widths_fit()
    ensures
        KEY_BITS % BLOCK_BITS == 0,
        KEY_BITS / BLOCK_BITS == 2,
        BLOCK_BITS % SBOX_BITS == 0,
        KEY_BITS == 8 * KEY_SIZE,
        BLOCK_BITS == 8 * BLOCK_SIZE,
        SBOX_SIZE == 1usize << SBOX_BITS,
{
    assert(1usize << 4usize == 16) by (bit_vector);
}

/// Bits 0..4 of a byte.
pub open spec fn low_nibble(b: u8) -> u8 {
    b & 0x0f
}

/// Bits 4..8 of a byte, moved down to bits 0..4.
pub open spec fn high_nibble(b: u8) -> u8 {
    b >> 4
}

/// The byte whose low nibble is bits 0..4 of `lo` and whose high nibble is
/// bits 0..4 of `hi`.
pub open spec fn join_nibbles(lo: u8, hi: u8) -> u8 {
    (lo & 0x0f) | ((hi & 0x0f) << 4)
}

/// Both nibbles of a byte are below sixteen.
pub proof fn lemma_nibbles_in_range(b: u8)
    ensures
        low_nibble(b) < 16,
        high_nibble(b) < 16,
{
    assert(b & 0x0f < 16) by (bit_vector);
    assert(b >> 4 < 16) by (bit_vector);
}

/// Splitting a byte into nibbles and joining them gives the byte back.
pub proof fn lemma_join_of_split(b: u8)
    ensures
        join_nibbles(low_nibble(b), high_nibble(b)) == b,
{
    assert(((b & 0x0f) & 0x0f) | (((b >> 4) & 0x0f) << 4) == b) by (bit_vector);
}

/// Joining two nibbles and splitting the byte gives the nibbles back.
pub proof fn lemma_split_of_join(lo: u8, hi: u8)
    requires
        lo < 16,
        hi < 16,
    ensures
        low_nibble(join_nibbles(lo, hi)) == lo,
        high_nibble(join_nibbles(lo, hi)) == hi,
{
    assert(((lo & 0x0f) | ((hi & 0x0f) << 4)) & 0x0f == lo) by (bit_vector)
        requires
            lo < 16,
            hi < 16,
    ;
    assert(((lo & 0x0f) | ((hi & 0x0f) << 4)) >> 4 == hi) by (bit_vector)
        requires
            lo < 16,
            hi < 16,
    ;
}

/// The weight of bit `i`: two to the power `i`.
pub open spec fn bit_weight(i: nat) -> nat
    decreases i,
{
    if i == 0 {
        1
    } else {
        2 * bit_weight((i - 1) as nat)
    }
}

/// The number that a sequence of bits stands for, the bit at position `i`
/// counting `bit_weight(i)`.
pub open spec fn bits_value(bits: Seq<bool>) -> nat
    decreases bits.len(),
{
    if bits.len() == 0 {
        0
    } else {
        bits_value(bits.drop_last()) + if bits.last() {
            bit_weight((bits.len() - 1) as nat)
        } else {
            0
        }
    }
}

/// The eight bits of a byte, bit 0 first.
pub open spec fn bits_of(b: u8) -> Seq<bool> {
    Seq::new(8, |i: int| (b >> (i as u8)) & 1 == 1)
}

/// In a byte, the bit at position `i` is worth `1 << i`.
proof fn lemma_bit_weight(i: nat)
    requires
        i < 8,
    ensures
        bit_weight(i) == 1u8 << (i as u8),
        bit_weight(i) <= 128,
{
    reveal_with_fuel(bit_weight, 9);
    assert(1u8 << 0u8 == 1) by (bit_vector);
    assert(1u8 << 1u8 == 2) by (bit_vector);
    assert(1u8 << 2u8 == 4) by (bit_vector);
    assert(1u8 << 3u8 == 8) by (bit_vector);
    assert(1u8 << 4u8 == 16) by (bit_vector);
    assert(1u8 << 5u8 == 32) by (bit_vector);
    assert(1u8 << 6u8 == 64) by (bit_vector);
    assert(1u8 << 7u8 == 128) by (bit_vector);
}

/// Fewer than `n` bits stand for a number below the weight of bit `n`.
proof fn lemma_bits_value_bound(bits: Seq<bool>)
    ensures
        bits_value(bits) < bit_weight(bits.len()),
    decreases bits.len(),
{
    if bits.len() > 0 {
        lemma_bits_value_bound(bits.drop_last());
    }
}

/// The bits of a byte stand for the byte.
pub proof fn lemma_bits_of_byte(b: u8)
    ensures
        bits_of(b).len() == 8,
        bits_value(bits_of(b)) == b,
{
    let bits = bits_of(b);
    let b7 = bits.drop_last();
    let b6 = b7.drop_last();
    let b5 = b6.drop_last();
    let b4 = b5.drop_last();
    let b3 = b4.drop_last();
    let b2 = b3.drop_last();
    let b1 = b2.drop_last();
    let b0 = b1.drop_last();
    reveal_with_fuel(bit_weight, 9);
    assert(b0.len() == 0 && b1.len() == 1 && b2.len() == 2 && b3.len() == 3);
    assert(b4.len() == 4 && b5.len() == 5 && b6.len() == 6 && b7.len() == 7);
    assert(bits_value(b0) == 0);
    assert(bits_value(b1) == bits_value(b0) + if bits[0] { 1nat } else { 0 });
    assert(bits_value(b2) == bits_value(b1) + if bits[1] { 2nat } else { 0 });
    assert(bits_value(b3) == bits_value(b2) + if bits[2] { 4nat } else { 0 });
    assert(bits_value(b4) == bits_value(b3) + if bits[3] { 8nat } else { 0 });
    assert(bits_value(b5) == bits_value(b4) + if bits[4] { 16nat } else { 0 });
    assert(bits_value(b6) == bits_value(b5) + if bits[5] { 32nat } else { 0 });
    assert(bits_value(b7) == bits_value(b6) + if bits[6] { 64nat } else { 0 });
    assert(bits_value(bits) == bits_value(b7) + if bits[7] { 128nat } else { 0 });
    assert(b == (if (b >> 0u8) & 1 == 1 { 1int } else { 0 }) + (if (b >> 1u8) & 1 == 1 {
        2int
    } else {
        0
    }) + (if (b >> 2u8) & 1 == 1 { 4int } else { 0 }) + (if (b >> 3u8) & 1 == 1 {
        8int
    } else {
        0
    }) + (if (b >> 4u8) & 1 == 1 { 16int } else { 0 }) + (if (b >> 5u8) & 1 == 1 {
        32int
    } else {
        0
    }) + (if (b >> 6u8) & 1 == 1 { 64int } else { 0 }) + (if (b >> 7u8) & 1 == 1 {
        128int
    } else {
        0
    })) by (bit_vector);
}

/// The byte that up to eight bits stand for, bit 0 first.
pub fn bits_to_byte(bits: &[bool]) -> (byte: u8)
    requires
        bits@.len() <= 8,
    ensures
        byte == bits_value(bits@),
{
    let mut byte: u8 = 0;
    let mut i: usize = 0;
    while i < bits.len()
        invariant
            i <= bits@.len() <= 8,
            byte == bits_value(bits@.take(i as int)),
        decreases bits@.len() - i,
    {
        proof {
            lemma_bit_weight(i as nat);
            lemma_bits_value_bound(bits@.take(i as int));
            assert(bits@.take(i + 1).drop_last() =~= bits@.take(i as int));
        }
        if bits[i] {
            byte = byte + (1u8 << (i as u8));
        }
        i += 1;
    }
    assert(bits@.take(i as int) =~= bits@);
    byte
}

} // verus!
