//! Counting the bits of a word.

use crate::word::valid_word_size;
use vstd::prelude::*;

verus! {

/// Whether bit `index` of `x` is set, for an index below 64.
pub open spec fn nth_bit(x: u64, index: nat) -> bool {
    (x >> (index as u64)) & 1 == 1
}

/// The number of set bits among the lowest `bits` bits of `x`.
pub open spec fn ones_below(x: u64, bits: nat) -> nat
    decreases bits,
{
    if bits == 0 {
        0
    } else {
        ones_below(x, (bits - 1) as nat) + if nth_bit(x, (bits - 1) as nat) {
            1nat
        } else {
            0nat
        }
    }
}

/// The number of clear bits among the lowest `bits` bits of `x`.
pub open spec fn zeros_below(x: u64, bits: nat) -> nat {
    (bits - ones_below(x, bits)) as nat
}

/// `u64::count_ones`: the number of ones in the binary form of `x`.
pub assume_specification[ u64::count_ones ](x: u64) -> (ones: u32)
    ensures
        ones == ones_below(x, 64),
;

/// `u64::count_zeros`: the number of zeros in the binary form of `x`.
pub assume_specification[ u64::count_zeros ](x: u64) -> (zeros: u32)
    ensures
        zeros == zeros_below(x, 64),
;

/// The bits that lie outside a word of `word_size` bytes.
pub open spec fn outside_mask(word_size: nat) -> u64 {
    if word_size == 2 {
        0xffff_ffff_ffff_0000
    } else if word_size == 4 {
        0xffff_ffff_0000_0000
    } else {
        0
    }
}

/// The number of clear bits of `x` inside a word of `word_size` bytes. Bits
/// outside the word are not counted.
pub fn zero_bits(x: u64, word_size: usize) -> (zeros: u32)
    requires
        valid_word_size(word_size as nat),
    ensures
        zeros == zeros_below(x, 8 * word_size as nat),
        zeros <= 8 * word_size,
{
    let mask: u64 = if word_size == 2 {
        0xffff_ffff_ffff_0000
    } else if word_size == 4 {
        0xffff_ffff_0000_0000
    } else {
        0
    };
    proof {
        lemma_masked_zeros(x, word_size as nat, 64);
        lemma_ones_bound(x, 8 * word_size as nat);
    }
    (x | mask).count_zeros()
}

/// The number of bits in which `a` and `b` differ.
pub fn hamming(a: u64, b: u64) -> (distance: u32)
    ensures
        distance == ones_below(a ^ b, 64),
        distance <= 64,
        a == b ==> distance == 0,
{
    proof {
        lemma_ones_bound(a ^ b, 64);
        if a == b {
            assert(a ^ a == 0) by (bit_vector);
            lemma_no_ones(64);
        }
    }
    (a ^ b).count_ones()
}

/// There are no more set bits than bits.
pub proof fn lemma_ones_bound(x: u64, bits: nat)
    ensures
        ones_below(x, bits) <= bits,
    decreases bits,
{
    if bits > 0 {
        lemma_ones_bound(x, (bits - 1) as nat);
    }
}

/// Zero has no set bit.
pub proof fn lemma_no_ones(bits: nat)
    requires
        bits <= 64,
    ensures
        ones_below(0, bits) == 0,
    decreases bits,
{
    if bits > 0 {
        lemma_no_ones((bits - 1) as nat);
        let index: u64 = (bits - 1) as u64;
        assert((0u64 >> index) & 1 == 0) by (bit_vector);
    }
}

/// Setting the bits outside the word leaves the clear bits inside it, and
/// no others.
proof fn lemma_masked_zeros(x: u64, word_size: nat, bits: nat)
    requires
        valid_word_size(word_size),
        bits <= 64,
    ensures
        zeros_below(x | outside_mask(word_size), bits) == if bits <= 8 * word_size {
            zeros_below(x, bits)
        } else {
            zeros_below(x, 8 * word_size)
        },
    decreases bits,
{
    let mask = outside_mask(word_size);
    lemma_ones_bound(x, bits);
    lemma_ones_bound(x | mask, bits);
    if bits > 0 {
        lemma_masked_zeros(x, word_size, (bits - 1) as nat);
        lemma_ones_bound(x, (bits - 1) as nat);
        lemma_ones_bound(x | mask, (bits - 1) as nat);
        let index: u64 = (bits - 1) as u64;
        if word_size == 2 {
            assert(index < 16 ==> ((x | 0xffff_ffff_ffff_0000) >> index) & 1 == (x >> index) & 1)
                by (bit_vector);
            assert(16 <= index < 64 ==> ((x | 0xffff_ffff_ffff_0000) >> index) & 1 == 1)
                by (bit_vector);
        } else if word_size == 4 {
            assert(index < 32 ==> ((x | 0xffff_ffff_0000_0000) >> index) & 1 == (x >> index) & 1)
                by (bit_vector);
            assert(32 <= index < 64 ==> ((x | 0xffff_ffff_0000_0000) >> index) & 1 == 1)
                by (bit_vector);
        } else {
            assert(x | 0 == x) by (bit_vector);
        }
    }
}

} // verus!
