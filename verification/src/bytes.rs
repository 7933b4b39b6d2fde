//! Fixed-width byte conversions used to assemble CREATE2 messages.

use vstd::prelude::*;
use vstd::bytes::{spec_u64_to_le_bytes, spec_u64_from_le_bytes};

verus! {

/// Convert a properly-sized vector to a fixed array of 20 bytes.
pub fn to_fixed_20(bytes: Vec<u8>) -> (array: [u8; 20])
    requires
        bytes@.len() >= 20,
    ensures
        array@ == bytes@.take(20),
{
    let mut array = [0u8; 20];
    let mut i: usize = 0;
    while i < 20
        invariant
            i <= 20,
            bytes@.len() >= 20,
            forall|j: int| 0 <= j < i ==> array@[j] == bytes@[j],
        decreases 20 - i,
    {
        array[i] = bytes[i];
        i = i + 1;
    }
    assert(array@ =~= bytes@.take(20));
    array
}

/// Convert a properly-sized vector to a fixed array of 32 bytes.
pub fn to_fixed_32(bytes: Vec<u8>) -> (array: [u8; 32])
    requires
        bytes@.len() >= 32,
    ensures
        array@ == bytes@.take(32),
{
    let mut array = [0u8; 32];
    let mut i: usize = 0;
    while i < 32
        invariant
            i <= 32,
            bytes@.len() >= 32,
            forall|j: int| 0 <= j < i ==> array@[j] == bytes@[j],
        decreases 32 - i,
    {
        array[i] = bytes[i];
        i = i + 1;
    }
    assert(array@ =~= bytes@.take(32));
    array
}

/// Convert a properly-sized vector to a fixed array of 47 bytes.
pub fn to_fixed_47(bytes: &Vec<u8>) -> (array: [u8; 47])
    requires
        bytes@.len() >= 47,
    ensures
        array@ == bytes@.take(47),
{
    let mut array = [0u8; 47];
    let mut i: usize = 0;
    while i < 47
        invariant
            i <= 47,
            bytes@.len() >= 47,
            forall|j: int| 0 <= j < i ==> array@[j] == bytes@[j],
        decreases 47 - i,
    {
        array[i] = bytes[i];
        i = i + 1;
    }
    assert(array@ =~= bytes@.take(47));
    array
}

/// Convert a properly-sized vector to a fixed array of 4 bytes.
pub fn to_fixed_4(bytes: &Vec<u8>) -> (array: [u8; 4])
    requires
        bytes@.len() >= 4,
    ensures
        array@ == bytes@.take(4),
{
    let mut array = [0u8; 4];
    let mut i: usize = 0;
    while i < 4
        invariant
            i <= 4,
            bytes@.len() >= 4,
            forall|j: int| 0 <= j < i ==> array@[j] == bytes@[j],
        decreases 4 - i,
    {
        array[i] = bytes[i];
        i = i + 1;
    }
    assert(array@ =~= bytes@.take(4));
    array
}

/// The six bytes of the low 48 bits of `x`, most significant first.
pub open spec fn be_bytes_6(x: u64) -> Seq<u8> {
    seq![
        ((x >> 40) & 0xff) as u8,
        ((x >> 32) & 0xff) as u8,
        ((x >> 24) & 0xff) as u8,
        ((x >> 16) & 0xff) as u8,
        ((x >> 8) & 0xff) as u8,
        (x & 0xff) as u8,
    ]
}

/// The number that six bytes denote when read most significant first.
pub open spec fn be_value_6(s: Seq<u8>) -> u64
    recommends
        s.len() == 6,
{
    (s[0] as u64) << 40 | (s[1] as u64) << 32 | (s[2] as u64) << 24 | (s[3] as u64) << 16
        | (s[4] as u64) << 8 | (s[5] as u64)
}

/// Convert a 64-bit unsigned integer to a fixed array of six bytes.
pub fn u64_to_fixed_6(x: &u64) -> (bytes: [u8; 6])
    ensures
        bytes@ == be_bytes_6(*x),
{
    let mask: u64 = 0xff;
    let b1: u8 = ((*x >> 40) & mask) as u8;
    let b2: u8 = ((*x >> 32) & mask) as u8;
    let b3: u8 = ((*x >> 24) & mask) as u8;
    let b4: u8 = ((*x >> 16) & mask) as u8;
    let b5: u8 = ((*x >> 8) & mask) as u8;
    let b6: u8 = (*x & mask) as u8;
    let bytes = [b1, b2, b3, b4, b5, b6];
    assert(bytes@ =~= be_bytes_6(*x));
    bytes
}

/// Convert 64-bit unsigned integer to little-endian fixed array of eight bytes.
pub fn u64_to_le_fixed_8(x: &u64) -> (bytes: [u8; 8])
    ensures
        bytes@ == spec_u64_to_le_bytes(*x),
{
    let mask: u64 = 0xff;
    let b1: u8 = ((*x >> 56) & mask) as u8;
    let b2: u8 = ((*x >> 48) & mask) as u8;
    let b3: u8 = ((*x >> 40) & mask) as u8;
    let b4: u8 = ((*x >> 32) & mask) as u8;
    let b5: u8 = ((*x >> 24) & mask) as u8;
    let b6: u8 = ((*x >> 16) & mask) as u8;
    let b7: u8 = ((*x >> 8) & mask) as u8;
    let b8: u8 = (*x & mask) as u8;
    let bytes = [b8, b7, b6, b5, b4, b3, b2, b1];
    proof {
        vstd::bytes::spec_u64_to_le_bytes_to_open(*x);
    }
    assert(bytes@ =~= spec_u64_to_le_bytes(*x));
    bytes
}

/// Six-byte encoding keeps exactly the low 48 bits: reading the bytes back
/// most significant first gives `x` with its top 16 bits cleared.
pub proof fn lemma_be_bytes_6_value(x: u64)
    ensures
        be_bytes_6(x).len() == 6,
        be_value_6(be_bytes_6(x)) == x & 0xffff_ffff_ffff,
{
    let s = be_bytes_6(x);
    assert(s[0] == ((x >> 40) & 0xff) as u8);
    assert(s[5] == (x & 0xff) as u8);
    assert(((((x >> 40) & 0xff) as u8) as u64) << 40 | ((((x >> 32) & 0xff) as u8) as u64) << 32
        | ((((x >> 24) & 0xff) as u8) as u64) << 24 | ((((x >> 16) & 0xff) as u8) as u64) << 16
        | ((((x >> 8) & 0xff) as u8) as u64) << 8 | (((x & 0xff) as u8) as u64)
        == x & 0xffff_ffff_ffff) by (bit_vector);
}

/// Distinct nonces below 2^48 give distinct six-byte salt segments, so the
/// search never tries the same salt twice within one random prefix.
pub proof fn lemma_be_bytes_6_injective(x: u64, y: u64)
    requires
        x <= 0xffff_ffff_ffff,
        y <= 0xffff_ffff_ffff,
        x != y,
    ensures
        be_bytes_6(x) != be_bytes_6(y),
{
    lemma_be_bytes_6_value(x);
    lemma_be_bytes_6_value(y);
    assert(x & 0xffff_ffff_ffff == x) by (bit_vector)
        requires
            x <= 0xffff_ffff_ffff,
    ;
    assert(y & 0xffff_ffff_ffff == y) by (bit_vector)
        requires
            y <= 0xffff_ffff_ffff,
    ;
}

/// The eight little-endian bytes of `x` read back to `x`.
pub proof fn lemma_le_bytes_8_round_trip(x: u64)
    ensures
        spec_u64_to_le_bytes(x).len() == 8,
        spec_u64_from_le_bytes(spec_u64_to_le_bytes(x)) == x,
{
    vstd::bytes::lemma_auto_spec_u64_to_from_le_bytes();
}

} // verus!
