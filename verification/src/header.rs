//! The fixed five-byte frame header: start marker, little-endian payload
//! length, sequence number, and an 8-bit checksum over the four bytes before
//! it.  Serialization always recomputes the checksum from the bytes just
//! emitted, so a header can never be serialized in an inconsistent state.

use vstd::prelude::*;

use crate::checksum::checksum8;
use crate::checksum::crc8_spec;
use crate::checksum::lemma_crc8_byte_corruption;
use crate::wire::hi16;
use crate::wire::le16;
use crate::wire::lemma_le16_of_split;
use crate::wire::lo16;
use crate::wire::u16_from_le;
use crate::wire::u16_hi;
use crate::wire::u16_lo;
use crate::wire::ParseError;

verus! {

/// The fixed constant byte that opens every frame on the wire.
pub const START_MARKER: u8 = 0xa5;

/// The serialized size of a header in bytes.
pub const HEADER_LEN: usize = 5;

/// The fixed-size frame header.  `data_length` counts the payload bytes
/// between header and tail; `crc8` is the stored 8-bit checksum over the
/// four header bytes before it.
#[derive(Clone, Copy, PartialEq, Eq, Structural, Debug)]
pub struct FrameHeader {
    pub data_length: u16,
    pub seq: u8,
    pub crc8: u8,
}

/// The first four bytes of a serialized header: marker, length (little
/// endian), sequence number.
pub open spec fn header_prefix(data_length: u16, sn: u8) -> Seq<u8> {
    seq![START_MARKER, lo16(data_length), hi16(data_length), sn]
}

/// The five bytes of a serialized header: the prefix followed by its own
/// freshly computed checksum8.
pub open spec fn header_bytes(data_length: u16, sn: u8) -> Seq<u8> {
    header_prefix(data_length, sn).push(crc8_spec(header_prefix(data_length, sn)))
}

/// What parsing a header buffer yields: the error cases in check order, or
/// the header read from the first five bytes.
pub open spec fn spec_parse_header(s: Seq<u8>) -> Result<FrameHeader, ParseError> {
    if s.len() < 5 {
        Err(ParseError::TooShort)
    } else if s[0] != START_MARKER {
        Err(ParseError::BadStartMarker)
    } else if crc8_spec(s.subrange(0, 4)) != s[4] {
        Err(ParseError::Crc8Mismatch)
    } else {
        Ok(
            FrameHeader {
                data_length: le16(s[1], s[2]),
                seq: s[3],
                crc8: s[4],
            },
        )
    }
}

impl FrameHeader {
    /// Parses and validates the header at the front of `buf`.  Succeeds if
    /// and only if `buf` holds at least five bytes, opens with the start
    /// marker, and stores the checksum8 of its first four bytes in the
    /// fifth; bytes past the fifth are ignored.  A header is returned only
    /// on full success, never partially.
    pub fn parse(buf: &[u8]) -> (r: Result<FrameHeader, ParseError>)
        ensures
            r == spec_parse_header(buf@),
    {
        if buf.len() < 5 {
            return Err(ParseError::TooShort);
        }
        if buf[0] != START_MARKER {
            return Err(ParseError::BadStartMarker);
        }
        let prefix = vstd::slice::slice_subrange(buf, 0, 4);
        if checksum8(prefix) != buf[4] {
            return Err(ParseError::Crc8Mismatch);
        }
        Ok(
            FrameHeader {
                data_length: u16_from_le(buf[1], buf[2]),
                seq: buf[3],
                crc8: buf[4],
            },
        )
    }

    /// Serializes the header as exactly five bytes: marker, `data_length`
    /// little endian, `seq`, then the checksum8 of those four bytes.  The
    /// checksum is recomputed from the bytes just emitted, not read from the
    /// stored `crc8` field.
    pub fn to_bytes(&self) -> (r: Vec<u8>)
        ensures
            r@ == header_bytes(self.data_length, self.seq),
    {
        let mut v: Vec<u8> = Vec::new();
        v.push(START_MARKER);
        v.push(u16_lo(self.data_length));
        v.push(u16_hi(self.data_length));
        v.push(self.seq);
        proof {
            assert(v@ =~= header_prefix(self.data_length, self.seq));
        }
        let c = checksum8(v.as_slice());
        v.push(c);
        v
    }
}

/// Round trip: parsing a serialized header succeeds and yields the length
/// and sequence number it was built from, with the freshly computed checksum
/// stored.
pub proof fn lemma_header_round_trip(data_length: u16, sn: u8)
    ensures
        spec_parse_header(header_bytes(data_length, sn)) == Ok::<FrameHeader, ParseError>(
            FrameHeader {
                data_length,
                seq: sn,
                crc8: crc8_spec(header_prefix(data_length, sn)),
            },
        ),
{
    let p = header_prefix(data_length, sn);
    let h = header_bytes(data_length, sn);
    assert(h.subrange(0, 4) =~= p);
    lemma_le16_of_split(data_length);
}

/// Corruption of the start marker is detected: changing byte 0 of a
/// serialized header to anything else makes parsing fail with
/// `BadStartMarker`.
pub proof fn lemma_header_marker_corruption_detected(data_length: u16, sn: u8, b: u8)
    requires
        b != START_MARKER,
    ensures
        spec_parse_header(header_bytes(data_length, sn).update(0, b)) == Err::<
            FrameHeader,
            ParseError,
        >(ParseError::BadStartMarker),
{
    let t = header_bytes(data_length, sn).update(0, b);
    assert(t.len() == 5 && t[0] == b);
}

/// Corruption of any single byte among bytes 1 to 4 of a serialized header
/// — in particular any single flipped bit there — is detected: parsing
/// fails with `Crc8Mismatch`.
pub proof fn lemma_header_corruption_detected(data_length: u16, sn: u8, i: int, b: u8)
    requires
        1 <= i < 5,
        b != header_bytes(data_length, sn)[i],
    ensures
        spec_parse_header(header_bytes(data_length, sn).update(i, b)) == Err::<
            FrameHeader,
            ParseError,
        >(ParseError::Crc8Mismatch),
{
    let p = header_prefix(data_length, sn);
    let h = header_bytes(data_length, sn);
    let t = h.update(i, b);
    assert(t.len() == 5 && t[0] == START_MARKER);
    assert(h.subrange(0, 4) =~= p);
    if i == 4 {
        assert(t.subrange(0, 4) =~= p);
        assert(t[4] == b && b != h[4] && h[4] == crc8_spec(p));
    } else {
        assert(t.subrange(0, 4) =~= p.update(i, b));
        lemma_crc8_byte_corruption(0xff, p, i, b);
        assert(t[4] == crc8_spec(p));
    }
}

/// Flipping any single bit of a serialized header outside the stored
/// checksum byte itself is caught by parsing: a flip in the marker byte
/// fails with `BadStartMarker`, a flip elsewhere with `Crc8Mismatch` (a
/// flip in the checksum byte is caught too, by the same mismatch).
pub proof fn lemma_header_bit_flip_detected(data_length: u16, sn: u8, i: int, k: u8)
    requires
        0 <= i < 5,
        k < 8,
    ensures
        spec_parse_header(
            header_bytes(data_length, sn).update(
                i,
                header_bytes(data_length, sn)[i] ^ (1u8 << k),
            ),
        ) == (if i == 0 {
            Err::<FrameHeader, ParseError>(ParseError::BadStartMarker)
        } else {
            Err::<FrameHeader, ParseError>(ParseError::Crc8Mismatch)
        }),
{
    let h = header_bytes(data_length, sn);
    let x = h[i];
    assert(x ^ (1u8 << k) != x) by (bit_vector)
        requires
            k < 8,
    ;
    if i == 0 {
        lemma_header_marker_corruption_detected(data_length, sn, x ^ (1u8 << k));
    } else {
        lemma_header_corruption_detected(data_length, sn, i, x ^ (1u8 << k));
    }
}

} // verus!
