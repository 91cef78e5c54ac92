//! Machine words as bytes: a gene is written to memory and read back in the
//! target's word size and byte order.

use byteorder::{BigEndian, ByteOrder, LittleEndian};
use vstd::prelude::*;

verus! {

/// Byte order of the target architecture.
#[derive(Clone, Copy, Debug, PartialEq, Eq, Structural)]
pub enum Endian {
    Little,
    Big,
}

/// The word sizes, in bytes, that a target can have.
pub open spec fn valid_word_size(size: nat) -> bool {
    size == 2 || size == 4 || size == 8
}

/// Byte `i` of `n`, counted from the least significant byte.
pub open spec fn byte_of(n: u64, i: nat) -> u8 {
    ((n >> ((8 * i) as u64)) & 0xff) as u8
}

/// The low `size` bytes of `word`, kept as a number.
pub open spec fn truncated(word: u64, size: nat) -> u64 {
    if size == 2 {
        word & 0xffff
    } else if size == 4 {
        word & 0xffff_ffff
    } else {
        word
    }
}

/// Whether `word` fits in `size` bytes.
pub open spec fn fits(word: u64, size: nat) -> bool {
    truncated(word, size) == word
}

/// The `size` bytes that stand for the low `size` bytes of `word` in the
/// given byte order.
pub open spec fn word_bytes(word: u64, size: nat, endian: Endian) -> Seq<u8> {
    Seq::new(
        size,
        |i: int|
            match endian {
                Endian::Little => byte_of(word, i as nat),
                Endian::Big => byte_of(word, (size - 1 - i) as nat),
            },
    )
}

/// The number that `bytes` stands for when its first byte is the least
/// significant one.
pub open spec fn le_value(bytes: Seq<u8>) -> nat
    decreases bytes.len(),
{
    if bytes.len() == 0 {
        0
    } else {
        bytes[0] as nat + 256 * le_value(bytes.drop_first())
    }
}

/// The number that `bytes` stands for when its first byte is the most
/// significant one.
pub open spec fn be_value(bytes: Seq<u8>) -> nat
    decreases bytes.len(),
{
    if bytes.len() == 0 {
        0
    } else {
        256 * be_value(bytes.drop_last()) + bytes.last() as nat
    }
}

/// The number that the first `size` bytes of `bytes` stand for in the given
/// byte order.
pub open spec fn word_value(bytes: Seq<u8>, size: nat, endian: Endian) -> nat {
    match endian {
        Endian::Little => le_value(bytes.subrange(0, size as int)),
        Endian::Big => be_value(bytes.subrange(0, size as int)),
    }
}

/// `byteorder::LittleEndian::read_u16`: the first two bytes of `buf` read
/// with the first as the least significant byte. It panics on a shorter buffer, which
/// `requires` leaves out.
#[verifier::external_body]
fn read_u16_le(buf: &[u8]) -> (value: u16)
    requires
        buf@.len() >= 2,
    ensures
        value as nat == le_value(buf@.subrange(0, 2)),
{
    LittleEndian::read_u16(buf)
}

/// `byteorder::LittleEndian::read_u32`: the first four bytes of `buf` read
/// with the first as the least significant byte. It panics on a shorter buffer, which
/// `requires` leaves out.
#[verifier::external_body]
fn read_u32_le(buf: &[u8]) -> (value: u32)
    requires
        buf@.len() >= 4,
    ensures
        value as nat == le_value(buf@.subrange(0, 4)),
{
    LittleEndian::read_u32(buf)
}

/// `byteorder::LittleEndian::read_u64`: the first eight bytes of `buf` read
/// with the first as the least significant byte. It panics on a shorter buffer, which
/// `requires` leaves out.
#[verifier::external_body]
fn read_u64_le(buf: &[u8]) -> (value: u64)
    requires
        buf@.len() >= 8,
    ensures
        value as nat == le_value(buf@.subrange(0, 8)),
{
    LittleEndian::read_u64(buf)
}

/// `byteorder::BigEndian::read_u16`: the first two bytes of `buf` read
/// with the first as the most significant byte. It panics on a shorter buffer, which
/// `requires` leaves out.
#[verifier::external_body]
fn read_u16_be(buf: &[u8]) -> (value: u16)
    requires
        buf@.len() >= 2,
    ensures
        value as nat == be_value(buf@.subrange(0, 2)),
{
    BigEndian::read_u16(buf)
}

/// `byteorder::BigEndian::read_u32`: the first four bytes of `buf` read
/// with the first as the most significant byte. It panics on a shorter buffer, which
/// `requires` leaves out.
#[verifier::external_body]
fn read_u32_be(buf: &[u8]) -> (value: u32)
    requires
        buf@.len() >= 4,
    ensures
        value as nat == be_value(buf@.subrange(0, 4)),
{
    BigEndian::read_u32(buf)
}

/// `byteorder::BigEndian::read_u64`: the first eight bytes of `buf` read
/// with the first as the most significant byte. It panics on a shorter buffer, which
/// `requires` leaves out.
#[verifier::external_body]
fn read_u64_be(buf: &[u8]) -> (value: u64)
    requires
        buf@.len() >= 8,
    ensures
        value as nat == be_value(buf@.subrange(0, 8)),
{
    BigEndian::read_u64(buf)
}

/// `byteorder::LittleEndian::write_u16`: the first two bytes of `buf`
/// become the bytes of `n`, least significant byte first, and the rest of `buf`
/// stays as it was. It panics on a shorter buffer, which `requires` leaves
/// out.
#[verifier::external_body]
fn write_u16_le(buf: &mut Vec<u8>, n: u16)
    requires
        old(buf)@.len() >= 2,
    ensures
        final(buf)@ == word_bytes(n as u64, 2, Endian::Little) + old(buf)@.subrange(
            2,
            old(buf)@.len() as int,
        ),
{
    LittleEndian::write_u16(buf, n)
}

/// `byteorder::LittleEndian::write_u32`: the first four bytes of `buf`
/// become the bytes of `n`, least significant byte first, and the rest of `buf`
/// stays as it was. It panics on a shorter buffer, which `requires` leaves
/// out.
#[verifier::external_body]
fn write_u32_le(buf: &mut Vec<u8>, n: u32)
    requires
        old(buf)@.len() >= 4,
    ensures
        final(buf)@ == word_bytes(n as u64, 4, Endian::Little) + old(buf)@.subrange(
            4,
            old(buf)@.len() as int,
        ),
{
    LittleEndian::write_u32(buf, n)
}

/// `byteorder::LittleEndian::write_u64`: the first eight bytes of `buf`
/// become the bytes of `n`, least significant byte first, and the rest of `buf`
/// stays as it was. It panics on a shorter buffer, which `requires` leaves
/// out.
#[verifier::external_body]
fn write_u64_le(buf: &mut Vec<u8>, n: u64)
    requires
        old(buf)@.len() >= 8,
    ensures
        final(buf)@ == word_bytes(n as u64, 8, Endian::Little) + old(buf)@.subrange(
            8,
            old(buf)@.len() as int,
        ),
{
    LittleEndian::write_u64(buf, n)
}

/// `byteorder::BigEndian::write_u16`: the first two bytes of `buf`
/// become the bytes of `n`, most significant byte first, and the rest of `buf`
/// stays as it was. It panics on a shorter buffer, which `requires` leaves
/// out.
#[verifier::external_body]
fn write_u16_be(buf: &mut Vec<u8>, n: u16)
    requires
        old(buf)@.len() >= 2,
    ensures
        final(buf)@ == word_bytes(n as u64, 2, Endian::Big) + old(buf)@.subrange(
            2,
            old(buf)@.len() as int,
        ),
{
    BigEndian::write_u16(buf, n)
}

/// `byteorder::BigEndian::write_u32`: the first four bytes of `buf`
/// become the bytes of `n`, most significant byte first, and the rest of `buf`
/// stays as it was. It panics on a shorter buffer, which `requires` leaves
/// out.
#[verifier::external_body]
fn write_u32_be(buf: &mut Vec<u8>, n: u32)
    requires
        old(buf)@.len() >= 4,
    ensures
        final(buf)@ == word_bytes(n as u64, 4, Endian::Big) + old(buf)@.subrange(
            4,
            old(buf)@.len() as int,
        ),
{
    BigEndian::write_u32(buf, n)
}

/// `byteorder::BigEndian::write_u64`: the first eight bytes of `buf`
/// become the bytes of `n`, most significant byte first, and the rest of `buf`
/// stays as it was. It panics on a shorter buffer, which `requires` leaves
/// out.
#[verifier::external_body]
fn write_u64_be(buf: &mut Vec<u8>, n: u64)
    requires
        old(buf)@.len() >= 8,
    ensures
        final(buf)@ == word_bytes(n as u64, 8, Endian::Big) + old(buf)@.subrange(
            8,
            old(buf)@.len() as int,
        ),
{
    BigEndian::write_u64(buf, n)
}

/// Writes `word` in `word_size` bytes: the step that turns a gene into the
/// byte pattern to look for in memory. A word wider than `word_size` bytes
/// loses its high bytes.
pub fn encode_word(word: u64, word_size: usize, endian: Endian) -> (bytes: Vec<u8>)
    requires
        valid_word_size(word_size as nat),
    ensures
        bytes@ == word_bytes(word, word_size as nat, endian),
{
    let mut bytes: Vec<u8> = vec![0u8; word_size];
    match endian {
        Endian::Little => {
            if word_size == 8 {
                write_u64_le(&mut bytes, word);
            } else if word_size == 4 {
                write_u32_le(&mut bytes, word as u32);
                proof {
                    lemma_bytes_of_truncated(word);
                }
            } else {
                write_u16_le(&mut bytes, word as u16);
                proof {
                    lemma_bytes_of_truncated(word);
                }
            }
        },
        Endian::Big => {
            if word_size == 8 {
                write_u64_be(&mut bytes, word);
            } else if word_size == 4 {
                write_u32_be(&mut bytes, word as u32);
                proof {
                    lemma_bytes_of_truncated(word);
                }
            } else {
                write_u16_be(&mut bytes, word as u16);
                proof {
                    lemma_bytes_of_truncated(word);
                }
            }
        },
    }
    bytes
}

/// Reads the first `word_size` bytes of `bytes` as a word: the step that
/// turns what an address points at into a gene.
pub fn decode_word(bytes: &[u8], word_size: usize, endian: Endian) -> (word: u64)
    requires
        valid_word_size(word_size as nat),
        bytes@.len() >= word_size,
    ensures
        word as nat == word_value(bytes@, word_size as nat, endian),
{
    match endian {
        Endian::Little => {
            if word_size == 8 {
                read_u64_le(bytes)
            } else if word_size == 4 {
                read_u32_le(bytes) as u64
            } else {
                read_u16_le(bytes) as u64
            }
        },
        Endian::Big => {
            if word_size == 8 {
                read_u64_be(bytes)
            } else if word_size == 4 {
                read_u32_be(bytes) as u64
            } else {
                read_u16_be(bytes) as u64
            }
        },
    }
}

/// The low bytes of a word are those of its truncation.
proof fn lemma_bytes_of_truncated(word: u64)
    ensures
        forall|i: nat| i < 4 ==> byte_of((word as u32) as u64, i) == byte_of(word, i),
        forall|i: nat| i < 2 ==> byte_of((word as u16) as u64, i) == byte_of(word, i),
{
    assert(byte_of((word as u32) as u64, 0) == byte_of(word, 0)) by (bit_vector);
    assert(byte_of((word as u32) as u64, 1) == byte_of(word, 1)) by (bit_vector);
    assert(byte_of((word as u32) as u64, 2) == byte_of(word, 2)) by (bit_vector);
    assert(byte_of((word as u32) as u64, 3) == byte_of(word, 3)) by (bit_vector);
    assert(byte_of((word as u16) as u64, 0) == byte_of(word, 0)) by (bit_vector);
    assert(byte_of((word as u16) as u64, 1) == byte_of(word, 1)) by (bit_vector);
}

/// A little-endian value, byte by byte.
proof fn lemma_le_value_unfold(bytes: Seq<u8>)
    ensures
        bytes.len() == 2 ==> le_value(bytes) == bytes[0] + 256 * bytes[1],
        bytes.len() == 4 ==> le_value(bytes) == bytes[0] + 256 * bytes[1] + 65536 * bytes[2]
            + 16777216 * bytes[3],
        bytes.len() == 8 ==> le_value(bytes) == bytes[0] + 256 * bytes[1] + 65536 * bytes[2]
            + 16777216 * bytes[3] + 4294967296 * bytes[4] + 1099511627776 * bytes[5]
            + 281474976710656 * bytes[6] + 72057594037927936 * bytes[7],
{
    reveal_with_fuel(le_value, 9);
    if bytes.len() == 2 || bytes.len() == 4 || bytes.len() == 8 {
        let a = bytes.drop_first();
        let b = a.drop_first();
        assert(b.len() == 0 ==> le_value(b) == 0);
        if bytes.len() >= 4 {
            let c = b.drop_first();
            let d = c.drop_first();
            if bytes.len() == 8 {
                let e = d.drop_first();
                let f = e.drop_first();
                let g = f.drop_first();
                let h = g.drop_first();
                assert(h.len() == 0);
            }
        }
    }
}

/// A big-endian value, byte by byte.
proof fn lemma_be_value_unfold(bytes: Seq<u8>)
    ensures
        bytes.len() == 2 ==> be_value(bytes) == bytes[1] + 256 * bytes[0],
        bytes.len() == 4 ==> be_value(bytes) == bytes[3] + 256 * bytes[2] + 65536 * bytes[1]
            + 16777216 * bytes[0],
        bytes.len() == 8 ==> be_value(bytes) == bytes[7] + 256 * bytes[6] + 65536 * bytes[5]
            + 16777216 * bytes[4] + 4294967296 * bytes[3] + 1099511627776 * bytes[2]
            + 281474976710656 * bytes[1] + 72057594037927936 * bytes[0],
{
    reveal_with_fuel(be_value, 9);
    if bytes.len() == 2 || bytes.len() == 4 || bytes.len() == 8 {
        let a = bytes.drop_last();
        let b = a.drop_last();
        assert(b.len() == 0 ==> be_value(b) == 0);
        if bytes.len() >= 4 {
            let c = b.drop_last();
            let d = c.drop_last();
            if bytes.len() == 8 {
                let e = d.drop_last();
                let f = e.drop_last();
                let g = f.drop_last();
                let h = g.drop_last();
                assert(h.len() == 0);
            }
        }
    }
}

/// The bytes of a word add up to the word, cut to the bytes that were kept.
proof fn lemma_bytes_sum(word: u64)
    ensures
        byte_of(word, 0) + 256 * byte_of(word, 1) == word & 0xffff,
        byte_of(word, 0) + 256 * byte_of(word, 1) + 65536 * byte_of(word, 2) + 16777216 * byte_of(
            word,
            3,
        ) == word & 0xffff_ffff,
        byte_of(word, 0) + 256 * byte_of(word, 1) + 65536 * byte_of(word, 2) + 16777216 * byte_of(
            word,
            3,
        ) + 4294967296 * byte_of(word, 4) + 1099511627776 * byte_of(word, 5) + 281474976710656
            * byte_of(word, 6) + 72057594037927936 * byte_of(word, 7) == word,
{
    let b0 = byte_of(word, 0);
    let b1 = byte_of(word, 1);
    let b2 = byte_of(word, 2);
    let b3 = byte_of(word, 3);
    let b4 = byte_of(word, 4);
    let b5 = byte_of(word, 5);
    let b6 = byte_of(word, 6);
    let b7 = byte_of(word, 7);
    assert(b0 == (word & 0xff) as u8 && b1 == ((word >> 8) & 0xff) as u8 && b2 == ((word >> 16)
        & 0xff) as u8 && b3 == ((word >> 24) & 0xff) as u8 && b4 == ((word >> 32) & 0xff) as u8
        && b5 == ((word >> 40) & 0xff) as u8 && b6 == ((word >> 48) & 0xff) as u8 && b7 == ((word
        >> 56) & 0xff) as u8) by {
        assert(word >> 0 == word) by (bit_vector);
    }
    assert(b0 + 256 * b1 == word & 0xffff) by (bit_vector)
        requires
            b0 == (word & 0xff) as u8,
            b1 == ((word >> 8) & 0xff) as u8,
    ;
    assert(b0 + 256 * b1 + 65536 * b2 + 16777216 * b3 == word & 0xffff_ffff) by (bit_vector)
        requires
            b0 == (word & 0xff) as u8,
            b1 == ((word >> 8) & 0xff) as u8,
            b2 == ((word >> 16) & 0xff) as u8,
            b3 == ((word >> 24) & 0xff) as u8,
    ;
    assert(b0 + 256 * b1 + 65536 * b2 + 16777216 * b3 + 4294967296 * b4 + 1099511627776 * b5
        + 281474976710656 * b6 + 72057594037927936 * b7 == word) by (bit_vector)
        requires
            b0 == (word & 0xff) as u8,
            b1 == ((word >> 8) & 0xff) as u8,
            b2 == ((word >> 16) & 0xff) as u8,
            b3 == ((word >> 24) & 0xff) as u8,
            b4 == ((word >> 32) & 0xff) as u8,
            b5 == ((word >> 40) & 0xff) as u8,
            b6 == ((word >> 48) & 0xff) as u8,
            b7 == ((word >> 56) & 0xff) as u8,
    ;
}

/// A word written in `size` bytes and read back in the same size and byte
/// order is the word cut to `size` bytes.
pub proof fn lemma_decode_encode(word: u64, size: nat, endian: Endian)
    requires
        valid_word_size(size),
    ensures
        word_value(word_bytes(word, size, endian), size, endian) == truncated(word, size),
{
    let bytes = word_bytes(word, size, endian);
    assert(bytes.subrange(0, size as int) == bytes);
    lemma_le_value_unfold(bytes);
    lemma_be_value_unfold(bytes);
    lemma_bytes_sum(word);
}

/// Round trip: a word that fits in `size` bytes comes back unchanged when it
/// is written and then read with the same word size and byte order.
pub proof fn lemma_word_round_trip(word: u64, size: nat, endian: Endian)
    requires
        valid_word_size(size),
        fits(word, size),
    ensures
        word_value(word_bytes(word, size, endian), size, endian) == word,
{
    lemma_decode_encode(word, size, endian);
}

} // verus!
