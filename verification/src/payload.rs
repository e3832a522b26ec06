//! The command payload registry: a closed set of structured schemas keyed by
//! a two-byte little-endian command id, plus a raw fallback variant that
//! preserves the exact bytes of any command whose id has no registered
//! schema.  The registry never fails solely because an id is unknown.

use vstd::prelude::*;

use crate::wire::le16;
use crate::wire::lemma_le16_of_split;
use crate::wire::lemma_split_of_le16;
use crate::wire::lo16;
use crate::wire::hi16;
use crate::wire::u16_from_le;
use crate::wire::u16_hi;
use crate::wire::u16_lo;
use crate::wire::ParseError;

verus! {

/// The command id registered with the one-unsigned-16-bit-field schema.
pub const CMD_ID_VALUE16: u16 = 0x0001;

/// A command payload: one of the registered structured schemas, or the raw
/// fallback carrying an unregistered id together with its unparsed bytes.
#[derive(Clone, Debug)]
pub enum CmdData {
    /// The schema of command id `0x0001`: a single unsigned 16-bit field.
    Value16 { value: u16 },
    /// A command whose id has no registered schema: the id and the bytes
    /// that followed it, kept unparsed so the command round-trips exactly.
    Raw { cmd_id: u16, data: Vec<u8> },
}

/// The mathematical value of a command payload, with the raw bytes as a
/// sequence.  Contracts speak of this model.
pub enum PayloadModel {
    Value16 { value: u16 },
    Raw { cmd_id: u16, data: Seq<u8> },
}

impl View for CmdData {
    type V = PayloadModel;

    open spec fn view(&self) -> PayloadModel {
        match self {
            CmdData::Value16 { value } => PayloadModel::Value16 { value: *value },
            CmdData::Raw { cmd_id, data } => PayloadModel::Raw {
                cmd_id: *cmd_id,
                data: data@,
            },
        }
    }
}

/// Whether a command id has a registered structured schema.
pub open spec fn spec_registered(id: u16) -> bool {
    id == CMD_ID_VALUE16
}

/// The full serialized width, id included, that a registered schema demands.
pub open spec fn spec_schema_len(id: u16) -> nat {
    if id == CMD_ID_VALUE16 {
        4
    } else {
        0
    }
}

/// The command id a payload carries.
pub open spec fn spec_cmd_id(m: PayloadModel) -> u16 {
    match m {
        PayloadModel::Value16 { .. } => CMD_ID_VALUE16,
        PayloadModel::Raw { cmd_id, .. } => cmd_id,
    }
}

/// The serialized bytes of a payload: the id little endian, then the
/// schema's fields in schema order, or the raw bytes unchanged.
pub open spec fn spec_payload_bytes(m: PayloadModel) -> Seq<u8> {
    match m {
        PayloadModel::Value16 { value } => seq![
            lo16(CMD_ID_VALUE16),
            hi16(CMD_ID_VALUE16),
            lo16(value),
            hi16(value),
        ],
        PayloadModel::Raw { cmd_id, data } => seq![lo16(cmd_id), hi16(cmd_id)] + data,
    }
}

/// A payload is canonical when the raw fallback never carries a registered
/// id.  Parsing only ever produces canonical payloads.
pub open spec fn spec_canonical(m: PayloadModel) -> bool {
    match m {
        PayloadModel::Raw { cmd_id, .. } => !spec_registered(cmd_id),
        _ => true,
    }
}

/// What parsing a payload buffer yields: the error cases in check order, a
/// structured value for a registered id of the right width, or the raw
/// fallback for an unregistered id.
pub open spec fn spec_parse_payload(s: Seq<u8>) -> Result<PayloadModel, ParseError> {
    if s.len() < 2 {
        Err(ParseError::TooShort)
    } else if spec_registered(le16(s[0], s[1])) {
        if s.len() == spec_schema_len(le16(s[0], s[1])) {
            Ok(PayloadModel::Value16 { value: le16(s[2], s[3]) })
        } else {
            Err(ParseError::SchemaLengthMismatch)
        }
    } else {
        Ok(
            PayloadModel::Raw {
                cmd_id: le16(s[0], s[1]),
                data: s.subrange(2, s.len() as int),
            },
        )
    }
}

/// Tells whether a command id has a registered structured schema.
pub fn registered(id: u16) -> (r: bool)
    ensures
        r == spec_registered(id),
{
    id == CMD_ID_VALUE16
}

impl CmdData {
    /// Parses a payload buffer.  Needs at least the two id bytes; a
    /// registered id must arrive with exactly its schema's width; an
    /// unregistered id always succeeds as the raw variant carrying the
    /// remaining bytes unchanged.
    pub fn parse(buf: &[u8]) -> (r: Result<CmdData, ParseError>)
        ensures
            (match r {
                Ok(c) => spec_parse_payload(buf@) == Ok::<PayloadModel, ParseError>(c@),
                Err(e) => spec_parse_payload(buf@) == Err::<PayloadModel, ParseError>(e),
            }),
            r is Ok ==> spec_canonical(r->Ok_0@),
    {
        if buf.len() < 2 {
            return Err(ParseError::TooShort);
        }
        let id = u16_from_le(buf[0], buf[1]);
        if registered(id) {
            if buf.len() == 4 {
                Ok(CmdData::Value16 { value: u16_from_le(buf[2], buf[3]) })
            } else {
                Err(ParseError::SchemaLengthMismatch)
            }
        } else {
            let rest = vstd::slice::slice_subrange(buf, 2, buf.len());
            let data = vstd::slice::slice_to_vec(rest);
            Ok(CmdData::Raw { cmd_id: id, data })
        }
    }

    /// Serializes the payload: the id little endian, then the schema fields
    /// in schema order, or the stored raw bytes unchanged.  The same
    /// structured values always serialize to the same bytes.
    pub fn to_bytes(&self) -> (r: Vec<u8>)
        ensures
            r@ == spec_payload_bytes(self@),
    {
        match self {
            CmdData::Value16 { value } => {
                let mut v: Vec<u8> = Vec::new();
                v.push(u16_lo(CMD_ID_VALUE16));
                v.push(u16_hi(CMD_ID_VALUE16));
                v.push(u16_lo(*value));
                v.push(u16_hi(*value));
                proof {
                    assert(v@ =~= spec_payload_bytes(self@));
                }
                v
            },
            CmdData::Raw { cmd_id, data } => {
                let mut v: Vec<u8> = Vec::new();
                v.push(u16_lo(*cmd_id));
                v.push(u16_hi(*cmd_id));
                let mut i: usize = 0;
                while i < data.len()
                    invariant
                        i <= data.len(),
                        v@ =~= seq![lo16(*cmd_id), hi16(*cmd_id)] + data@.subrange(0, i as int),
                    decreases data.len() - i,
                {
                    v.push(data[i]);
                    proof {
                        assert(v@ =~= seq![lo16(*cmd_id), hi16(*cmd_id)] + data@.subrange(
                            0,
                            i + 1,
                        ));
                    }
                    i = i + 1;
                }
                proof {
                    assert(data@.subrange(0, data@.len() as int) =~= data@);
                    assert(v@ =~= spec_payload_bytes(self@));
                }
                v
            },
        }
    }

    /// The command id, readable without a structured decode; it equals the
    /// id encoded in the first two serialized bytes.
    pub fn cmd_id(&self) -> (r: u16)
        ensures
            r == spec_cmd_id(self@),
            r == le16(spec_payload_bytes(self@)[0], spec_payload_bytes(self@)[1]),
    {
        proof {
            lemma_payload_bytes_id(self@);
        }
        match self {
            CmdData::Value16 { .. } => CMD_ID_VALUE16,
            CmdData::Raw { cmd_id, .. } => *cmd_id,
        }
    }
}

/// Serialized payloads open with their command id: they hold at least the
/// two id bytes, and those bytes encode the payload's id.
pub proof fn lemma_payload_bytes_id(m: PayloadModel)
    ensures
        spec_payload_bytes(m).len() >= 2,
        le16(spec_payload_bytes(m)[0], spec_payload_bytes(m)[1]) == spec_cmd_id(m),
{
    lemma_le16_of_split(spec_cmd_id(m));
}

/// Round trip: parsing the serialization of any canonical payload succeeds
/// and gives that payload back.
pub proof fn lemma_payload_round_trip(m: PayloadModel)
    requires
        spec_canonical(m),
    ensures
        spec_parse_payload(spec_payload_bytes(m)) == Ok::<PayloadModel, ParseError>(m),
{
    let s = spec_payload_bytes(m);
    match m {
        PayloadModel::Value16 { value } => {
            lemma_le16_of_split(CMD_ID_VALUE16);
            lemma_le16_of_split(value);
        },
        PayloadModel::Raw { cmd_id, data } => {
            lemma_le16_of_split(cmd_id);
            assert(s.subrange(2, s.len() as int) =~= data);
        },
    }
}

/// Unknown-id preservation: any buffer of at least two bytes whose id has
/// no registered schema parses to the raw variant, and serializing that
/// variant reproduces the buffer byte for byte.
pub proof fn lemma_unknown_id_preserved(s: Seq<u8>)
    requires
        s.len() >= 2,
        !spec_registered(le16(s[0], s[1])),
    ensures
        ({
            let m = PayloadModel::Raw {
                cmd_id: le16(s[0], s[1]),
                data: s.subrange(2, s.len() as int),
            };
            spec_parse_payload(s) == Ok::<PayloadModel, ParseError>(m) && spec_payload_bytes(m)
                == s
        }),
{
    lemma_split_of_le16(s[0], s[1]);
    let m = PayloadModel::Raw {
        cmd_id: le16(s[0], s[1]),
        data: s.subrange(2, s.len() as int),
    };
    assert(spec_payload_bytes(m) =~= s);
}

/// Compares two byte vectors element by element.
pub fn bytes_eq(a: &Vec<u8>, b: &Vec<u8>) -> (r: bool)
    ensures
        r <==> a@ == b@,
{
    if a.len() != b.len() {
        return false;
    }
    let mut i: usize = 0;
    while i < a.len()
        invariant
            i <= a.len(),
            a@.len() == b@.len(),
            forall|j: int| 0 <= j < i ==> a@[j] == b@[j],
        decreases a.len() - i,
    {
        if a[i] != b[i] {
            return false;
        }
        i = i + 1;
    }
    proof {
        assert(a@ =~= b@);
    }
    true
}

impl PartialEq for CmdData {
    /// Structural equality: same variant, same fields, raw bytes compared
    /// element by element.
    fn eq(&self, other: &Self) -> (r: bool) {
        match (self, other) {
            (CmdData::Value16 { value: x }, CmdData::Value16 { value: y }) => *x == *y,
            (
                CmdData::Raw { cmd_id: a, data: d1 },
                CmdData::Raw { cmd_id: b, data: d2 },
            ) => *a == *b && bytes_eq(d1, d2),
            _ => false,
        }
    }
}

impl vstd::std_specs::cmp::PartialEqSpecImpl for CmdData {
    open spec fn obeys_eq_spec() -> bool {
        true
    }

    open spec fn eq_spec(&self, other: &Self) -> bool {
        self@ == other@
    }
}

} // verus!
