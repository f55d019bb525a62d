//! Little-endian 16-bit fields, the only multi-byte integers on the wire.

use vstd::prelude::*;

verus! {

/// The low byte of `x`, sent first.
pub open spec fn lo_byte(x: u16) -> u8 {
    (x % 256) as u8
}

/// The high byte of `x`, sent second.
pub open spec fn hi_byte(x: u16) -> u8 {
    (x / 256) as u8
}

/// The 16-bit value whose little-endian bytes are `lo`, `hi`.
pub open spec fn le16(lo: u8, hi: u8) -> u16 {
    (lo + 256 * hi) as u16
}

/// The two wire bytes of `x`.
pub open spec fn le16_bytes(x: u16) -> Seq<u8> {
    seq![lo_byte(x), hi_byte(x)]
}

/// Splits `x` into its low and high byte.
pub fn split_le16(x: u16) -> (out: (u8, u8))
    ensures
        out.0 == lo_byte(x),
        out.1 == hi_byte(x),
{
    ((x % 256) as u8, (x / 256) as u8)
}

/// Joins two wire bytes into the value they encode.
pub fn join_le16(lo: u8, hi: u8) -> (out: u16)
    ensures
        out == le16(lo, hi),
{
    (lo as u16) + 256 * (hi as u16)
}

/// Splitting and joining are inverse to each other.
pub proof fn lemma_le16_round_trip(x: u16, lo: u8, hi: u8)
    ensures
        le16(lo_byte(x), hi_byte(x)) == x,
        lo_byte(le16(lo, hi)) == lo,
        hi_byte(le16(lo, hi)) == hi,
{
}

} // verus!
