//! The frame assembler: one header, one command payload, and a 16-bit tail
//! checksum over every byte before it, kept self-consistent by the
//! recompute-on-demand model.  Mutating `seq` or the payload leaves the
//! checksum-derived fields stale; `recompute` is the single operation that
//! restores consistency, and serialization always recomputes first, so a
//! stale frame can never be observed on the wire.

use vstd::prelude::*;

use crate::checksum::checksum16;
use crate::checksum::crc8_spec;
use crate::checksum::crc16_spec;
use crate::checksum::lemma_crc16_byte_corruption;
use crate::header::header_bytes;
use crate::header::header_prefix;
use crate::header::spec_parse_header;
use crate::header::FrameHeader;
use crate::payload::spec_canonical;
use crate::payload::spec_cmd_id;
use crate::payload::spec_parse_payload;
use crate::payload::spec_payload_bytes;
use crate::payload::CmdData;
use crate::payload::PayloadModel;
use crate::wire::le16;
use crate::wire::lemma_le16_of_split;
use crate::wire::lo16;
use crate::wire::hi16;
use crate::wire::u16_from_le;
use crate::wire::u16_hi;
use crate::wire::u16_lo;
use crate::wire::ParseError;

verus! {

/// One complete protocol message: header, command payload, and the tail
/// checksum over all preceding bytes.
#[derive(Clone, Debug)]
pub struct Frame {
    pub header: FrameHeader,
    pub cmd_data: CmdData,
    pub frame_tail: u16,
}

/// The mathematical value of a frame.  Contracts speak of this model.
pub struct FrameModel {
    pub header: FrameHeader,
    pub cmd: PayloadModel,
    pub frame_tail: u16,
}

impl View for Frame {
    type V = FrameModel;

    open spec fn view(&self) -> FrameModel {
        FrameModel {
            header: self.header,
            cmd: self.cmd_data@,
            frame_tail: self.frame_tail,
        }
    }
}

/// The frame with its checksum-derived fields rebuilt from the current
/// payload and sequence number: `data_length` from the serialized payload,
/// `crc8` over the fresh header prefix, and the tail checksum over the
/// fresh header bytes followed by the payload bytes.
pub open spec fn spec_recompute(f: FrameModel) -> FrameModel {
    let pb = spec_payload_bytes(f.cmd);
    let dl = pb.len() as u16;
    FrameModel {
        header: FrameHeader {
            data_length: dl,
            seq: f.header.seq,
            crc8: crc8_spec(header_prefix(dl, f.header.seq)),
        },
        cmd: f.cmd,
        frame_tail: crc16_spec(header_bytes(dl, f.header.seq) + pb),
    }
}

/// A frame is consistent when its payload fits the 16-bit length field and
/// every checksum-derived field matches a fresh recomputation.  Parsing and
/// `recompute` both establish this; mutation may break it until the next
/// `recompute`.
pub open spec fn spec_consistent(f: FrameModel) -> bool {
    spec_payload_bytes(f.cmd).len() <= 0xffff && spec_recompute(f) == f
}

/// The bytes a frame serializes to, as a function of its sequence number
/// and payload alone: fresh header bytes, payload bytes, then the tail
/// checksum little endian.
pub open spec fn spec_wire_bytes(sn: u8, cmd: PayloadModel) -> Seq<u8> {
    let pb = spec_payload_bytes(cmd);
    let hb = header_bytes(pb.len() as u16, sn);
    let tail = crc16_spec(hb + pb);
    hb + pb + seq![lo16(tail), hi16(tail)]
}

/// What parsing a frame buffer yields: the header errors first, then the
/// exact-length checks, then the whole-frame checksum, then the payload
/// schema; or the fully validated frame.
pub open spec fn spec_parse_frame(s: Seq<u8>) -> Result<FrameModel, ParseError> {
    match spec_parse_header(s) {
        Err(e) => Err(e),
        Ok(h) => {
            let total = 5 + h.data_length as int + 2;
            if s.len() < total {
                Err(ParseError::TooShort)
            } else if s.len() > total {
                Err(ParseError::TrailingBytes)
            } else if crc16_spec(s.subrange(0, 5 + h.data_length as int)) != le16(
                s[total - 2],
                s[total - 1],
            ) {
                Err(ParseError::Crc16Mismatch)
            } else {
                match spec_parse_payload(s.subrange(5, 5 + h.data_length as int)) {
                    Err(e) => Err(e),
                    Ok(c) => Ok(
                        FrameModel {
                            header: h,
                            cmd: c,
                            frame_tail: le16(s[total - 2], s[total - 1]),
                        },
                    ),
                }
            }
        },
    }
}

/// Appends every byte of `src` to `dst`.
fn push_all(dst: &mut Vec<u8>, src: &Vec<u8>)
    ensures
        final(dst)@ == old(dst)@ + src@,
{
    let mut i: usize = 0;
    while i < src.len()
        invariant
            i <= src.len(),
            dst@ =~= old(dst)@ + src@.subrange(0, i as int),
        decreases src.len() - i,
    {
        dst.push(src[i]);
        proof {
            assert(dst@ =~= old(dst)@ + src@.subrange(0, i + 1));
        }
        i = i + 1;
    }
    proof {
        assert(src@.subrange(0, src@.len() as int) =~= src@);
    }
}

impl Frame {
    /// Parses and validates one complete, self-contained frame.  Succeeds
    /// if and only if the header validates, the buffer holds header plus
    /// exactly `data_length` payload bytes plus the two tail bytes, the
    /// tail equals the recomputed checksum16 over everything before it, and
    /// the payload satisfies its schema.
    pub fn parse(buf: &[u8]) -> (r: Result<Frame, ParseError>)
        ensures
            (match r {
                Ok(f) => spec_parse_frame(buf@) == Ok::<FrameModel, ParseError>(f@),
                Err(e) => spec_parse_frame(buf@) == Err::<FrameModel, ParseError>(e),
            }),
            r is Ok ==> spec_consistent(r->Ok_0@) && spec_canonical(r->Ok_0@.cmd),
    {
        let header = match FrameHeader::parse(buf) {
            Ok(h) => h,
            Err(e) => { return Err(e) },
        };
        let dl = header.data_length as usize;
        if buf.len() < 5 + dl + 2 {
            return Err(ParseError::TooShort);
        }
        if buf.len() > 5 + dl + 2 {
            return Err(ParseError::TrailingBytes);
        }
        let body = vstd::slice::slice_subrange(buf, 0, 5 + dl);
        let tail = u16_from_le(buf[5 + dl], buf[5 + dl + 1]);
        if checksum16(body) != tail {
            return Err(ParseError::Crc16Mismatch);
        }
        let payload_slice = vstd::slice::slice_subrange(buf, 5, 5 + dl);
        let cmd_data = match CmdData::parse(payload_slice) {
            Ok(c) => c,
            Err(e) => { return Err(e) },
        };
        let f = Frame { header, cmd_data, frame_tail: tail };
        proof {
            lemma_parse_gives_consistent(buf@, f@);
        }
        Ok(f)
    }

    /// Builds a frame from a sequence number and a payload and recomputes
    /// at once, so the result is consistent from the start.
    pub fn from_cmd(sn: u8, cmd_data: CmdData) -> (r: Frame)
        requires
            spec_payload_bytes(cmd_data@).len() <= 0xffff,
        ensures
            r@.header.seq == sn,
            r@.cmd == cmd_data@,
            spec_consistent(r@),
    {
        let mut f = Frame {
            header: FrameHeader { data_length: 0, seq: sn, crc8: 0 },
            cmd_data,
            frame_tail: 0,
        };
        f.recompute();
        proof {
            lemma_recompute_idempotent(FrameModel {
                header: FrameHeader { data_length: 0, seq: sn, crc8: 0 },
                cmd: f@.cmd,
                frame_tail: 0,
            });
        }
        f
    }

    /// Builds a frame from a sequence number and raw payload bytes: the
    /// bytes are parsed first, then the frame is built and recomputed.
    pub fn from_cmd_bytes(sn: u8, cmd_bytes: &[u8]) -> (r: Result<Frame, ParseError>)
        requires
            cmd_bytes@.len() <= 0xffff,
        ensures
            (match r {
                Ok(f) => spec_parse_payload(cmd_bytes@) == Ok::<PayloadModel, ParseError>(f@.cmd)
                    && f@.header.seq == sn && spec_consistent(f@) && spec_canonical(f@.cmd),
                Err(e) => spec_parse_payload(cmd_bytes@) == Err::<PayloadModel, ParseError>(e),
            }),
    {
        let cmd_data = match CmdData::parse(cmd_bytes) {
            Ok(c) => c,
            Err(e) => { return Err(e) },
        };
        proof {
            lemma_parsed_payload_fits(cmd_bytes@);
        }
        Ok(Self::from_cmd(sn, cmd_data))
    }

    /// Recomputes `data_length`, the header checksum and the frame tail
    /// from the current payload and sequence number, restoring consistency
    /// after any mutation.  The payload and sequence number themselves are
    /// untouched.
    pub fn recompute(&mut self)
        requires
            spec_payload_bytes(old(self).cmd_data@).len() <= 0xffff,
        ensures
            final(self)@ == spec_recompute(old(self)@),
            spec_consistent(final(self)@),
    {
        let pb = self.cmd_data.to_bytes();
        self.header.data_length = pb.len() as u16;
        let mut all = self.header.to_bytes();
        self.header.crc8 = all[4];
        push_all(&mut all, &pb);
        self.frame_tail = checksum16(all.as_slice());
        proof {
            lemma_recompute_idempotent(old(self)@);
        }
    }

    /// Serializes the frame: recomputes from the current payload and
    /// sequence number, then emits header bytes, payload bytes and the tail
    /// checksum little endian.  The stored fields are not modified; a stale
    /// frame therefore still serializes to fully consistent bytes.
    pub fn to_bytes(&self) -> (r: Vec<u8>)
        requires
            spec_payload_bytes(self.cmd_data@).len() <= 0xffff,
        ensures
            r@ == spec_wire_bytes(self.header.seq, self.cmd_data@),
    {
        let pb = self.cmd_data.to_bytes();
        let fresh = FrameHeader {
            data_length: pb.len() as u16,
            seq: self.header.seq,
            crc8: 0,
        };
        let mut out = fresh.to_bytes();
        push_all(&mut out, &pb);
        let tail = checksum16(out.as_slice());
        out.push(u16_lo(tail));
        out.push(u16_hi(tail));
        proof {
            assert(out@ =~= spec_wire_bytes(self.header.seq, self.cmd_data@));
        }
        out
    }

    /// Tells whether the serialized payload fits the 16-bit length field,
    /// which is what `recompute` and `to_bytes` require.
    pub fn payload_fits(&self) -> (r: bool)
        ensures
            r <==> spec_payload_bytes(self.cmd_data@).len() <= 0xffff,
    {
        match &self.cmd_data {
            CmdData::Value16 { .. } => true,
            CmdData::Raw { cmd_id: _, data } => data.len() <= 0xffff - 2,
        }
    }

    /// Serializes the frame if its payload fits the 16-bit length field,
    /// and reports the oversized payload as `None` instead of demanding
    /// anything of the caller.
    pub fn try_to_bytes(&self) -> (r: Option<Vec<u8>>)
        ensures
            (match r {
                Some(v) => spec_payload_bytes(self.cmd_data@).len() <= 0xffff && v@
                    == spec_wire_bytes(self.header.seq, self.cmd_data@),
                None => spec_payload_bytes(self.cmd_data@).len() > 0xffff,
            }),
    {
        if self.payload_fits() {
            Some(self.to_bytes())
        } else {
            None
        }
    }

    /// The current sequence number.
    pub fn seq(&self) -> (r: u8)
        ensures
            r == self.header.seq,
    {
        self.header.seq
    }

    /// Replaces the sequence number; the checksum-derived fields go stale
    /// until the next recompute.
    pub fn set_seq(&mut self, value: u8)
        ensures
            final(self).header.seq == value,
            final(self).header.data_length == old(self).header.data_length,
            final(self).header.crc8 == old(self).header.crc8,
            final(self)@.cmd == old(self)@.cmd,
            final(self).frame_tail == old(self).frame_tail,
    {
        self.header.seq = value;
    }

    /// The stored tail checksum.
    pub fn frame_tail(&self) -> (r: u16)
        ensures
            r == self.frame_tail,
    {
        self.frame_tail
    }

    /// The command id of the current payload, without a structured decode.
    pub fn cmd_id(&self) -> (r: u16)
        ensures
            r == spec_cmd_id(self.cmd_data@),
    {
        self.cmd_data.cmd_id()
    }

    /// The serialized bytes of the current payload alone.
    pub fn cmd_data_bytes(&self) -> (r: Vec<u8>)
        ensures
            r@ == spec_payload_bytes(self.cmd_data@),
    {
        self.cmd_data.to_bytes()
    }

    /// Replaces the payload from raw bytes, parsing them first; on success
    /// the checksum-derived fields go stale until the next recompute, on
    /// failure the frame is unchanged.
    pub fn set_cmd_data_bytes(&mut self, data: &[u8]) -> (r: Result<(), ParseError>)
        ensures
            (match r {
                Ok(()) => spec_parse_payload(data@) == Ok::<PayloadModel, ParseError>(
                    final(self)@.cmd,
                ) && final(self).header == old(self).header
                    && final(self).frame_tail == old(self).frame_tail,
                Err(e) => spec_parse_payload(data@) == Err::<PayloadModel, ParseError>(e)
                    && final(self)@ == old(self)@,
            }),
    {
        match CmdData::parse(data) {
            Ok(c) => {
                self.cmd_data = c;
                Ok(())
            },
            Err(e) => Err(e),
        }
    }

    /// Replaces the payload from a structured value; the checksum-derived
    /// fields go stale until the next recompute.
    pub fn set_cmd_data(&mut self, cmd_data: CmdData)
        ensures
            final(self)@.cmd == cmd_data@,
            final(self).header == old(self).header,
            final(self).frame_tail == old(self).frame_tail,
    {
        self.cmd_data = cmd_data;
    }

    /// Replaces the header from raw bytes, parsing and validating them
    /// first; on failure the frame is unchanged.
    pub fn set_header_from_bytes(&mut self, data: &[u8]) -> (r: Result<(), ParseError>)
        ensures
            (match r {
                Ok(()) => spec_parse_header(data@) == Ok::<FrameHeader, ParseError>(
                    final(self).header,
                ) && final(self)@.cmd == old(self)@.cmd
                    && final(self).frame_tail == old(self).frame_tail,
                Err(e) => spec_parse_header(data@) == Err::<FrameHeader, ParseError>(e)
                    && final(self)@ == old(self)@,
            }),
    {
        match FrameHeader::parse(data) {
            Ok(h) => {
                self.header = h;
                Ok(())
            },
            Err(e) => Err(e),
        }
    }
}

impl PartialEq for Frame {
    /// Structural equality on header, payload and tail.
    fn eq(&self, other: &Self) -> (r: bool) {
        self.header == other.header && self.cmd_data == other.cmd_data && self.frame_tail
            == other.frame_tail
    }
}

impl vstd::std_specs::cmp::PartialEqSpecImpl for Frame {
    open spec fn obeys_eq_spec() -> bool {
        true
    }

    open spec fn eq_spec(&self, other: &Self) -> bool {
        self@ == other@
    }
}

/// A successfully parsed payload serializes back to at most as many bytes
/// as were parsed, so it always fits the 16-bit length field when the
/// buffer does.
proof fn lemma_parsed_payload_fits(s: Seq<u8>)
    requires
        spec_parse_payload(s) is Ok,
    ensures
        spec_payload_bytes(spec_parse_payload(s)->Ok_0) == s,
{
    let m = spec_parse_payload(s)->Ok_0;
    match m {
        PayloadModel::Value16 { value } => {
            crate::payload::lemma_payload_round_trip(m);
            assert(spec_payload_bytes(m) =~= s) by {
                lemma_le16_of_split(value);
                crate::wire::lemma_split_of_le16(s[0], s[1]);
                assert(spec_payload_bytes(m).len() == 4 && s.len() == 4);
            }
        },
        PayloadModel::Raw { cmd_id, data } => {
            crate::payload::lemma_unknown_id_preserved(s);
        },
    }
}

/// Recompute is idempotent: running it twice with no intervening mutation
/// stores exactly the same `data_length`, header checksum and tail as
/// running it once.
pub proof fn lemma_recompute_idempotent(f: FrameModel)
    ensures
        spec_recompute(spec_recompute(f)) == spec_recompute(f),
{
}

/// A frame assembled by a successful parse is consistent: its stored
/// length, header checksum and tail all equal a fresh recomputation.
proof fn lemma_parse_gives_consistent(s: Seq<u8>, f: FrameModel)
    requires
        spec_parse_frame(s) == Ok::<FrameModel, ParseError>(f),
    ensures
        spec_consistent(f),
        spec_canonical(f.cmd),
{
    let h = spec_parse_header(s)->Ok_0;
    let dl = h.data_length as int;
    let ps = s.subrange(5, 5 + dl);
    lemma_parsed_payload_fits(ps);
    assert(spec_payload_bytes(f.cmd) == ps);
    assert(ps.len() == dl);
    // the header bytes of the recomputation equal the first five bytes
    assert(s.subrange(0, 4) =~= header_prefix(h.data_length, h.seq)) by {
        crate::wire::lemma_split_of_le16(s[1], s[2]);
    }
    assert(header_bytes(h.data_length, h.seq) =~= s.subrange(0, 5));
    assert(s.subrange(0, 5) + ps =~= s.subrange(0, 5 + dl));
    lemma_le16_of_split(h.data_length);
}

/// Parsing the header of freshly serialized wire bytes succeeds and yields
/// the recomputed header.
proof fn lemma_wire_parse_header(sn: u8, cmd: PayloadModel)
    requires
        spec_payload_bytes(cmd).len() <= 0xffff,
    ensures
        ({
            let dl = spec_payload_bytes(cmd).len() as u16;
            spec_parse_header(spec_wire_bytes(sn, cmd)) == Ok::<FrameHeader, ParseError>(
                FrameHeader { data_length: dl, seq: sn, crc8: crc8_spec(header_prefix(dl, sn)) },
            )
        }),
{
    let pb = spec_payload_bytes(cmd);
    let dl = pb.len() as u16;
    let hb = header_bytes(dl, sn);
    let w = spec_wire_bytes(sn, cmd);
    assert(w.len() == 5 + pb.len() + 2);
    assert(w.subrange(0, 4) =~= hb.subrange(0, 4));
    assert(hb.subrange(0, 4) =~= header_prefix(dl, sn));
    assert(w[0] == hb[0] && w[1] == hb[1] && w[2] == hb[2] && w[3] == hb[3] && w[4] == hb[4]);
    lemma_le16_of_split(dl);
}

/// Two buffers of at least five bytes that agree on their first five bytes
/// parse to the same header result.
proof fn lemma_parse_header_prefix_only(s1: Seq<u8>, s2: Seq<u8>)
    requires
        s1.len() >= 5,
        s2.len() >= 5,
        forall|j: int| 0 <= j < 5 ==> s1[j] == s2[j],
    ensures
        spec_parse_header(s1) == spec_parse_header(s2),
{
    assert(s1.subrange(0, 4) =~= s2.subrange(0, 4));
    assert(s1[0] == s2[0] && s1[1] == s2[1] && s1[2] == s2[2] && s1[3] == s2[3] && s1[4] == s2[4]);
}

/// Round trip: every frame that parsing accepts, and every frame built from
/// a payload and then recomputed, reparses from its own serialization to a
/// value equal in all fields.
pub proof fn lemma_frame_round_trip(f: FrameModel)
    requires
        spec_consistent(f),
        spec_canonical(f.cmd),
    ensures
        spec_parse_frame(spec_wire_bytes(f.header.seq, f.cmd)) == Ok::<FrameModel, ParseError>(f),
{
    let sn = f.header.seq;
    let pb = spec_payload_bytes(f.cmd);
    let dl = pb.len() as u16;
    let hb = header_bytes(dl, sn);
    let tail = crc16_spec(hb + pb);
    let w = spec_wire_bytes(sn, f.cmd);
    let total = 5 + dl as int + 2;
    assert(w.len() == total);
    lemma_wire_parse_header(sn, f.cmd);
    assert(w.subrange(0, 5 + dl as int) =~= hb + pb);
    assert(w[total - 2] == lo16(tail) && w[total - 1] == hi16(tail));
    lemma_le16_of_split(tail);
    assert(w.subrange(5, 5 + dl as int) =~= pb);
    crate::payload::lemma_payload_round_trip(f.cmd);
}

/// Corrupting any single payload byte of a serialized frame is detected:
/// parsing fails with `Crc16Mismatch`.
pub proof fn lemma_frame_payload_corruption_detected(sn: u8, cmd: PayloadModel, i: int, b: u8)
    requires
        spec_payload_bytes(cmd).len() <= 0xffff,
        5 <= i < 5 + spec_payload_bytes(cmd).len(),
        b != spec_wire_bytes(sn, cmd)[i],
    ensures
        spec_parse_frame(spec_wire_bytes(sn, cmd).update(i, b)) == Err::<FrameModel, ParseError>(
            ParseError::Crc16Mismatch,
        ),
{
    let pb = spec_payload_bytes(cmd);
    let dl = pb.len() as u16;
    let hb = header_bytes(dl, sn);
    let body = hb + pb;
    let tail = crc16_spec(body);
    let w = spec_wire_bytes(sn, cmd);
    let t = w.update(i, b);
    let total = 5 + dl as int + 2;
    assert(w.len() == total && t.len() == total);
    lemma_wire_parse_header(sn, cmd);
    lemma_parse_header_prefix_only(t, w);
    assert(w.subrange(0, 5 + dl as int) =~= body);
    assert(t.subrange(0, 5 + dl as int) =~= body.update(i, b));
    assert(body[i] == w[i]);
    lemma_crc16_byte_corruption(0xffff, body, i, b);
    assert(t[total - 2] == lo16(tail) && t[total - 1] == hi16(tail));
    lemma_le16_of_split(tail);
}

/// Corrupting either stored tail byte of a serialized frame is detected
/// too: the tail is compared against a fresh recomputation, so parsing
/// fails with `Crc16Mismatch`.
pub proof fn lemma_frame_tail_corruption_detected(sn: u8, cmd: PayloadModel, i: int, b: u8)
    requires
        spec_payload_bytes(cmd).len() <= 0xffff,
        5 + spec_payload_bytes(cmd).len() <= i < 5 + spec_payload_bytes(cmd).len() + 2,
        b != spec_wire_bytes(sn, cmd)[i],
    ensures
        spec_parse_frame(spec_wire_bytes(sn, cmd).update(i, b)) == Err::<FrameModel, ParseError>(
            ParseError::Crc16Mismatch,
        ),
{
    let pb = spec_payload_bytes(cmd);
    let dl = pb.len() as u16;
    let hb = header_bytes(dl, sn);
    let body = hb + pb;
    let tail = crc16_spec(body);
    let w = spec_wire_bytes(sn, cmd);
    let t = w.update(i, b);
    let total = 5 + dl as int + 2;
    assert(w.len() == total && t.len() == total);
    lemma_wire_parse_header(sn, cmd);
    lemma_parse_header_prefix_only(t, w);
    assert(w.subrange(0, 5 + dl as int) =~= body);
    assert(t.subrange(0, 5 + dl as int) =~= body);
    assert(w[total - 2] == lo16(tail) && w[total - 1] == hi16(tail));
    if i == total - 2 {
        crate::wire::lemma_split_of_le16(b, hi16(tail));
        lemma_le16_of_split(tail);
        assert(le16(t[total - 2], t[total - 1]) != tail);
    } else {
        crate::wire::lemma_split_of_le16(lo16(tail), b);
        lemma_le16_of_split(tail);
        assert(le16(t[total - 2], t[total - 1]) != tail);
    }
}

/// Flipping any single bit anywhere in a serialized frame is detected:
/// parsing fails, with `BadStartMarker` for the marker byte, `Crc8Mismatch`
/// for the rest of the header, and `Crc16Mismatch` for the payload and tail
/// bytes.
pub proof fn lemma_frame_bit_flip_detected(sn: u8, cmd: PayloadModel, i: int, k: u8)
    requires
        spec_payload_bytes(cmd).len() <= 0xffff,
        0 <= i < spec_wire_bytes(sn, cmd).len(),
        k < 8,
    ensures
        ({
            let r = spec_parse_frame(
                spec_wire_bytes(sn, cmd).update(i, spec_wire_bytes(sn, cmd)[i] ^ (1u8 << k)),
            );
            &&& r is Err
            &&& i == 0 ==> r == Err::<FrameModel, ParseError>(ParseError::BadStartMarker)
            &&& 1 <= i < 5 ==> r == Err::<FrameModel, ParseError>(ParseError::Crc8Mismatch)
            &&& 5 <= i ==> r == Err::<FrameModel, ParseError>(ParseError::Crc16Mismatch)
        }),
{
    let pb = spec_payload_bytes(cmd);
    let dl = pb.len() as u16;
    let hb = header_bytes(dl, sn);
    let w = spec_wire_bytes(sn, cmd);
    let x = w[i];
    let y = x ^ (1u8 << k);
    let t = w.update(i, y);
    assert(y != x) by (bit_vector)
        requires
            k < 8,
            y == x ^ (1u8 << k),
    ;
    assert(w.len() == 5 + pb.len() + 2);
    if i < 5 {
        assert(w[i] == hb[i]);
        let hc = hb.update(i, y);
        lemma_parse_header_prefix_only(t, hc);
        if i == 0 {
            assert(x == crate::header::START_MARKER);
            crate::header::lemma_header_marker_corruption_detected(dl, sn, y);
        } else {
            crate::header::lemma_header_corruption_detected(dl, sn, i, y);
        }
    } else if i < 5 + pb.len() {
        lemma_frame_payload_corruption_detected(sn, cmd, i, y);
    } else {
        lemma_frame_tail_corruption_detected(sn, cmd, i, y);
    }
}

} // verus!
