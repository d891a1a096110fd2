//! Byte-wise recombination of two genetic payloads, steered by a random
//! word of the same width: for each of the eight byte positions the child
//! takes the second parent's byte when the steering byte is even, and the
//! first parent's byte otherwise.

use vstd::prelude::*;

verus! {

/// Byte `i` (little-endian) of a 64-bit word.
pub open spec fn byte_of(x: u64, i: u64) -> u8
    recommends
        i < 8,
{
    ((x >> ((8 * i) as u64)) & 0xff) as u8
}

/// The child's byte at position `i`: the second parent's when the
/// steering byte there is even, the first parent's otherwise.
pub open spec fn pick(d1: u64, d2: u64, r: u64, i: u64) -> u8
    recommends
        i < 8,
{
    if byte_of(r, i) % 2 == 0 {
        byte_of(d2, i)
    } else {
        byte_of(d1, i)
    }
}

/// The recombined payload, assembled from the eight picked bytes.
pub open spec fn mix_dna(d1: u64, d2: u64, r: u64) -> u64 {
    (pick(d1, d2, r, 0) as u64) | (pick(d1, d2, r, 1) as u64) << 8u64 | (pick(d1, d2, r, 2)
        as u64) << 16u64 | (pick(d1, d2, r, 3) as u64) << 24u64 | (pick(d1, d2, r, 4) as u64)
        << 32u64 | (pick(d1, d2, r, 5) as u64) << 40u64 | (pick(d1, d2, r, 6) as u64) << 48u64 | (
    pick(d1, d2, r, 7) as u64) << 56u64
}

/// Byte `i` of the word `x`.
fn byte_at(x: u64, i: u64) -> (b: u8)
    requires
        i < 8,
    ensures
        b == byte_of(x, i),
{
    ((x >> (8 * i)) & 0xff) as u8
}

/// The byte the child takes at position `i`.
fn pick_byte(d1: u64, d2: u64, r: u64, i: u64) -> (b: u8)
    requires
        i < 8,
    ensures
        b == pick(d1, d2, r, i),
{
    let steer = byte_at(r, i);
    if steer % 2 == 0 {
        byte_at(d2, i)
    } else {
        byte_at(d1, i)
    }
}

/// Recombines the two payloads under the steering word.
pub fn mix(d1: u64, d2: u64, r: u64) -> (res: u64)
    ensures
        res == mix_dna(d1, d2, r),
{
    let b0 = pick_byte(d1, d2, r, 0) as u64;
    let b1 = pick_byte(d1, d2, r, 1) as u64;
    let b2 = pick_byte(d1, d2, r, 2) as u64;
    let b3 = pick_byte(d1, d2, r, 3) as u64;
    let b4 = pick_byte(d1, d2, r, 4) as u64;
    let b5 = pick_byte(d1, d2, r, 5) as u64;
    let b6 = pick_byte(d1, d2, r, 6) as u64;
    let b7 = pick_byte(d1, d2, r, 7) as u64;
    b0 | b1 << 8 | b2 << 16 | b3 << 24 | b4 << 32 | b5 << 40 | b6 << 48 | b7 << 56
}

/// Reading a byte back out of the recombined payload gives exactly the
/// picked byte, so every position of the child equals the corresponding
/// byte of one of the two parents.
pub proof fn lemma_mix_byte(d1: u64, d2: u64, r: u64, i: u64)
    requires
        i < 8,
    ensures
        byte_of(mix_dna(d1, d2, r), i) == pick(d1, d2, r, i),
        byte_of(mix_dna(d1, d2, r), i) == byte_of(d1, i) || byte_of(mix_dna(d1, d2, r), i)
            == byte_of(d2, i),
{
    assert(byte_of(mix_dna(d1, d2, r), i) == pick(d1, d2, r, i)) by (bit_vector)
        requires
            i < 8,
    ;
}

} // verus!
