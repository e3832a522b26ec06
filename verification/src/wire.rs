//! Little-endian 16-bit primitives and the parse error kinds shared by the
//! header codec, the payload registry and the frame assembler.

use vstd::prelude::*;

verus! {

/// Every way a parse can fail.  Parsing never panics and never returns a
/// partial value: each failure is reported as exactly one of these kinds.
#[derive(Clone, Copy, PartialEq, Eq, Structural, Debug)]
pub enum ParseError {
    /// The buffer is smaller than the minimum the current parse stage needs.
    TooShort,
    /// The first header byte is not the fixed start marker.
    BadStartMarker,
    /// The stored header checksum differs from the recomputed checksum8.
    Crc8Mismatch,
    /// The stored frame tail differs from the recomputed checksum16.
    Crc16Mismatch,
    /// A recognized command id arrived with a payload of the wrong width.
    SchemaLengthMismatch,
    /// Extra bytes follow a structurally complete frame.
    TrailingBytes,
}

/// Low byte of a 16-bit value in little-endian order.
pub open spec fn lo16(x: u16) -> u8 {
    (x % 256) as u8
}

/// High byte of a 16-bit value in little-endian order.
pub open spec fn hi16(x: u16) -> u8 {
    (x / 256) as u8
}

/// The 16-bit value encoded by a little-endian byte pair.
pub open spec fn le16(lo: u8, hi: u8) -> u16 {
    (lo as int + 256 * (hi as int)) as u16
}

/// Splitting a value into its little-endian bytes and re-reading them gives
/// the value back.
pub proof fn lemma_le16_of_split(x: u16)
    ensures
        le16(lo16(x), hi16(x)) == x,
{
    assert(x as int == (x as int % 256) + 256 * (x as int / 256)) by (nonlinear_arith);
}

/// Reading a little-endian byte pair and splitting the value again gives the
/// original bytes back; in particular `le16` is injective in each byte.
pub proof fn lemma_split_of_le16(lo: u8, hi: u8)
    ensures
        lo16(le16(lo, hi)) == lo,
        hi16(le16(lo, hi)) == hi,
{
    let v = lo as int + 256 * (hi as int);
    assert(v % 256 == lo as int && v / 256 == hi as int) by (nonlinear_arith)
        requires
            0 <= lo < 256,
            0 <= hi < 256,
            v == lo as int + 256 * (hi as int),
    ;
}

/// Extracts the low byte of a 16-bit value.
pub fn u16_lo(x: u16) -> (r: u8)
    ensures
        r == lo16(x),
{
    (x % 256) as u8
}

/// Extracts the high byte of a 16-bit value.
pub fn u16_hi(x: u16) -> (r: u8)
    ensures
        r == hi16(x),
{
    (x / 256) as u8
}

/// Reads a 16-bit value from two little-endian bytes.
pub fn u16_from_le(lo: u8, hi: u8) -> (r: u16)
    ensures
        r == le16(lo, hi),
{
    lo as u16 + 256 * (hi as u16)
}

} // verus!
