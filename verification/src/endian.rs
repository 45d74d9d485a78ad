//! Byte order and fixed-width word encodings.

use vstd::prelude::*;

verus! {

/// Byte order of the words written to a section.
#[derive(Clone, Copy, Debug, PartialEq, Eq, Structural)]
pub enum Endian {
    Little,
    Big,
}

/// The `i`-th least significant byte of `val`.
pub open spec fn byte_of(val: u64, i: nat) -> u8 {
    if i < 8 {
        ((val >> ((8 * i) as u64)) & 0xff) as u8
    } else {
        0u8
    }
}

/// The `size` least significant bytes of `val`, least significant first.
pub open spec fn le_bytes(val: u64, size: nat) -> Seq<u8> {
    Seq::new(size, |i: int| byte_of(val, i as nat))
}

/// The `size` least significant bytes of `val`, most significant first.
pub open spec fn be_bytes(val: u64, size: nat) -> Seq<u8> {
    Seq::new(size, |i: int| byte_of(val, (size - 1 - i) as nat))
}

/// The encoding of `val` in `size` bytes in the given byte order.
pub open spec fn word_bytes(endian: Endian, val: u64, size: nat) -> Seq<u8> {
    match endian {
        Endian::Little => le_bytes(val, size),
        Endian::Big => be_bytes(val, size),
    }
}

/// Whether `val` can be written in `size` bytes.
pub open spec fn fits_in(val: u64, size: nat) -> bool {
    size >= 8 || val < pow256(size)
}

/// 256 to the power of `n`, for `n` below 8.
pub open spec fn pow256(n: nat) -> nat {
    if n == 0 {
        1
    } else if n == 1 {
        0x100
    } else if n == 2 {
        0x1_0000
    } else if n == 3 {
        0x100_0000
    } else if n == 4 {
        0x1_0000_0000
    } else if n == 5 {
        0x100_0000_0000
    } else if n == 6 {
        0x1_0000_0000_0000
    } else {
        0x100_0000_0000_0000
    }
}

/// Little-endian encoding of a 64-bit value, as computed by
/// `byteorder::LittleEndian::write_u64` on an eight byte buffer: byte `i` of
/// the result holds bits `8 * i .. 8 * i + 8` of `val`.
#[verifier::external_body]
pub(crate) fn le_u64(val: u64) -> (bytes: [u8; 8])
    ensures
        bytes@ == le_bytes(val, 8),
{
    let mut bytes = [0u8; 8];
    <byteorder::LittleEndian as byteorder::ByteOrder>::write_u64(&mut bytes, val);
    bytes
}

/// The `size` least significant bytes of `val` in the given byte order, for
/// a `size` of at most 8.
pub fn encode_word(endian: Endian, val: u64, size: u8) -> (bytes: Vec<u8>)
    requires
        size <= 8,
    ensures
        bytes@ == word_bytes(endian, val, size as nat),
{
    let mut bytes: Vec<u8> = Vec::new();
    let mut i: u8 = 0;
    while i < size
        invariant
            i <= size <= 8,
            bytes@.len() == i,
            forall|k: int| 0 <= k < i ==> bytes@[k] == word_bytes(endian, val, size as nat)[k],
        decreases size - i,
    {
        let pos: u8 = match endian {
            Endian::Little => i,
            Endian::Big => size - 1 - i,
        };
        let shift: u64 = 8 * (pos as u64);
        let b: u8 = ((val >> shift) & 0xff) as u8;
        bytes.push(b);
        i = i + 1;
    }
    bytes
}

} // verus!
