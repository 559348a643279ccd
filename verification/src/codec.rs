//! Little-endian integer fields of the on-disk formats.

use vstd::prelude::*;

verus! {

/// The unsigned value of two little-endian bytes.
pub open spec fn le16(b0: u8, b1: u8) -> int {
    b0 + 256 * b1
}

/// The two's-complement value of two little-endian bytes.
pub open spec fn le16_signed(b0: u8, b1: u8) -> int {
    if le16(b0, b1) < 0x8000 {
        le16(b0, b1)
    } else {
        le16(b0, b1) - 0x10000
    }
}

/// The unsigned value of four little-endian bytes.
pub open spec fn le32(b0: u8, b1: u8, b2: u8, b3: u8) -> int {
    b0 + 256 * (b1 + 256 * (b2 + 256 * b3))
}

/// The two's-complement value of four little-endian bytes.
pub open spec fn le32_signed(b0: u8, b1: u8, b2: u8, b3: u8) -> int {
    if le32(b0, b1, b2, b3) < 0x8000_0000 {
        le32(b0, b1, b2, b3)
    } else {
        le32(b0, b1, b2, b3) - 0x1_0000_0000
    }
}

/// Relies on `byteorder::LittleEndian::read_i16`: it returns the i16 held
/// little-endian in the first two bytes, and panics only when fewer than
/// two bytes are given.
#[verifier::external_body]
pub fn read_i16_le(buf: &[u8]) -> (r: i16)
    requires
        buf@.len() >= 2,
    ensures
        r as int == le16_signed(buf@[0], buf@[1]),
{
    <byteorder::LittleEndian as byteorder::ByteOrder>::read_i16(buf)
}

/// Relies on `byteorder::LittleEndian::read_i32`: it returns the i32 held
/// little-endian in the first four bytes, and panics only when fewer than
/// four bytes are given.
#[verifier::external_body]
pub fn read_i32_le(buf: &[u8]) -> (r: i32)
    requires
        buf@.len() >= 4,
    ensures
        r as int == le32_signed(buf@[0], buf@[1], buf@[2], buf@[3]),
{
    <byteorder::LittleEndian as byteorder::ByteOrder>::read_i32(buf)
}

} // verus!
