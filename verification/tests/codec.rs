use referee_codec::checksum::checksum16;
use referee_codec::checksum::checksum8;
use referee_codec::frame::Frame;
use referee_codec::header::FrameHeader;
use referee_codec::header::START_MARKER;
use referee_codec::payload::registered;
use referee_codec::payload::CmdData;
use referee_codec::wire::ParseError;

#[test]
fn checksum8_known_vectors() {
    assert_eq!(checksum8(&[]), 0xff);
    assert_eq!(checksum8(&[0x00]), 0x35);
    assert_eq!(checksum8(&[0xa5, 0x04, 0x00, 0x05]), 0x62);
    assert_eq!(checksum8(b"123456789"), 0x0b);
}

#[test]
fn checksum16_known_vectors() {
    assert_eq!(checksum16(&[]), 0xffff);
    assert_eq!(checksum16(b"123456789"), 0x6f91);
    assert_eq!(
        checksum16(&[0xa5, 0x04, 0x00, 0x05, 0x62, 0x01, 0x00, 0x2a, 0x00]),
        0x7874
    );
}

#[test]
fn header_serialize_is_exact() {
    let h = FrameHeader {
        data_length: 4,
        seq: 5,
        crc8: 0,
    };
    // the stored crc8 is ignored: serialization recomputes it
    assert_eq!(h.to_bytes(), vec![0xa5, 0x04, 0x00, 0x05, 0x62]);
}

#[test]
fn header_round_trip() {
    let h = FrameHeader {
        data_length: 0x1234,
        seq: 0xab,
        crc8: 0,
    };
    let bytes = h.to_bytes();
    let parsed = FrameHeader::parse(&bytes).unwrap();
    assert_eq!(parsed.data_length, 0x1234);
    assert_eq!(parsed.seq, 0xab);
    assert_eq!(parsed.crc8, bytes[4]);
    assert_eq!(parsed.to_bytes(), bytes);
}

#[test]
fn header_parse_too_short() {
    assert_eq!(
        FrameHeader::parse(&[0xa5, 0x00, 0x00, 0x00]),
        Err(ParseError::TooShort)
    );
}

#[test]
fn header_parse_bad_start_marker() {
    assert_eq!(
        FrameHeader::parse(&[0x00, 0x04, 0x00, 0x05, 0x62]),
        Err(ParseError::BadStartMarker)
    );
}

#[test]
fn header_parse_crc8_mismatch() {
    assert_eq!(
        FrameHeader::parse(&[0xa5, 0x04, 0x00, 0x05, 0x63]),
        Err(ParseError::Crc8Mismatch)
    );
}

#[test]
fn header_single_bit_flips_detected() {
    let bytes = FrameHeader {
        data_length: 4,
        seq: 5,
        crc8: 0,
    }
    .to_bytes();
    for i in 0..5 {
        for k in 0..8 {
            let mut corrupted = bytes.clone();
            corrupted[i] ^= 1u8 << k;
            let expected = if i == 0 {
                ParseError::BadStartMarker
            } else {
                ParseError::Crc8Mismatch
            };
            assert_eq!(FrameHeader::parse(&corrupted), Err(expected));
        }
    }
}

#[test]
fn scenario_seq_five_id_one_value_forty_two() {
    let f = Frame::from_cmd(5, CmdData::Value16 { value: 42 });
    let bytes = f.to_bytes();
    assert_eq!(
        bytes,
        vec![START_MARKER, 0x04, 0x00, 0x05, 0x62, 0x01, 0x00, 0x2a, 0x00, 0x74, 0x78]
    );
    assert_eq!(f.header.data_length, 4);
    assert_eq!(f.frame_tail, 0x7874);
}

#[test]
fn empty_payload_frame_round_trips() {
    // a payload that is exactly the two id bytes, with no further fields
    let f = Frame::from_cmd_bytes(7, &[0x00, 0x02]).unwrap();
    assert_eq!(f.header.data_length, 2);
    let bytes = f.to_bytes();
    assert_eq!(bytes, vec![0xa5, 0x02, 0x00, 0x07, 0x0f, 0x00, 0x02, 0x10, 0x50]);
    let reparsed = Frame::parse(&bytes).unwrap();
    assert_eq!(reparsed, f);
}

#[test]
fn frame_round_trip_structured() {
    let f = Frame::from_cmd(5, CmdData::Value16 { value: 42 });
    let reparsed = Frame::parse(&f.to_bytes()).unwrap();
    assert_eq!(reparsed, f);
}

#[test]
fn frame_round_trip_raw() {
    let f = Frame::from_cmd(
        9,
        CmdData::Raw {
            cmd_id: 0x0304,
            data: vec![0xde, 0xad],
        },
    );
    let bytes = f.to_bytes();
    assert_eq!(
        bytes,
        vec![0xa5, 0x04, 0x00, 0x09, 0xc1, 0x04, 0x03, 0xde, 0xad, 0x3c, 0x5a]
    );
    let reparsed = Frame::parse(&bytes).unwrap();
    assert_eq!(reparsed, f);
}

#[test]
fn frame_reserialize_after_parse_is_identical() {
    let bytes = vec![0xa5, 0x04, 0x00, 0x09, 0xc1, 0x04, 0x03, 0xde, 0xad, 0x3c, 0x5a];
    let f = Frame::parse(&bytes).unwrap();
    assert_eq!(f.to_bytes(), bytes);
}

#[test]
fn recompute_is_idempotent() {
    let mut f = Frame::from_cmd(5, CmdData::Value16 { value: 42 });
    f.set_seq(200);
    f.recompute();
    let dl = f.header.data_length;
    let crc = f.header.crc8;
    let tail = f.frame_tail;
    f.recompute();
    assert_eq!(f.header.data_length, dl);
    assert_eq!(f.header.crc8, crc);
    assert_eq!(f.frame_tail, tail);
}

#[test]
fn unknown_id_is_preserved() {
    assert!(!registered(0x0304));
    let original = [0x04, 0x03, 0xde, 0xad];
    let parsed = CmdData::parse(&original).unwrap();
    assert_eq!(
        parsed,
        CmdData::Raw {
            cmd_id: 0x0304,
            data: vec![0xde, 0xad],
        }
    );
    assert_eq!(parsed.to_bytes(), original.to_vec());
}

#[test]
fn payload_parse_too_short() {
    assert_eq!(CmdData::parse(&[0x01]), Err(ParseError::TooShort));
}

#[test]
fn payload_schema_length_mismatch() {
    assert!(registered(0x0001));
    assert_eq!(
        CmdData::parse(&[0x01, 0x00]),
        Err(ParseError::SchemaLengthMismatch)
    );
    assert_eq!(
        CmdData::parse(&[0x01, 0x00, 0x2a, 0x00, 0xff]),
        Err(ParseError::SchemaLengthMismatch)
    );
}

#[test]
fn frame_parse_schema_length_mismatch() {
    // checksums are valid, but id 0x0001 arrives with no field bytes
    let bytes = [0xa5, 0x02, 0x00, 0x03, 0x6e, 0x01, 0x00, 0xa7, 0x47];
    assert_eq!(Frame::parse(&bytes), Err(ParseError::SchemaLengthMismatch));
}

#[test]
fn frame_parse_too_short_and_trailing_bytes() {
    let good = Frame::from_cmd(5, CmdData::Value16 { value: 42 }).to_bytes();
    let mut truncated = good.clone();
    truncated.pop();
    assert_eq!(Frame::parse(&truncated), Err(ParseError::TooShort));
    let mut extended = good.clone();
    extended.push(0x00);
    assert_eq!(Frame::parse(&extended), Err(ParseError::TrailingBytes));
}

#[test]
fn frame_single_bit_flips_detected() {
    let bytes = Frame::from_cmd(5, CmdData::Value16 { value: 42 }).to_bytes();
    for i in 0..bytes.len() {
        for k in 0..8 {
            let mut corrupted = bytes.clone();
            corrupted[i] ^= 1u8 << k;
            let expected = if i == 0 {
                ParseError::BadStartMarker
            } else if i < 5 {
                ParseError::Crc8Mismatch
            } else {
                ParseError::Crc16Mismatch
            };
            assert_eq!(Frame::parse(&corrupted), Err(expected));
        }
    }
}

#[test]
fn set_seq_changes_serialization_only_through_recompute() {
    let mut f = Frame::from_cmd(5, CmdData::Value16 { value: 42 });
    let stale_tail = f.frame_tail;
    f.set_seq(6);
    assert_eq!(f.seq(), 6);
    // stored fields are stale until recompute...
    assert_eq!(f.frame_tail, stale_tail);
    // ...but serialization recomputes and matches a frame built fresh
    let fresh = Frame::from_cmd(6, CmdData::Value16 { value: 42 });
    assert_eq!(f.to_bytes(), fresh.to_bytes());
}

#[test]
fn cmd_id_readable_without_decode() {
    let f = Frame::from_cmd(1, CmdData::Value16 { value: 7 });
    assert_eq!(f.cmd_id(), 0x0001);
    let g = Frame::from_cmd(
        1,
        CmdData::Raw {
            cmd_id: 0xbeef,
            data: vec![],
        },
    );
    assert_eq!(g.cmd_id(), 0xbeef);
    assert_eq!(g.cmd_data_bytes(), vec![0xef, 0xbe]);
}

#[test]
fn set_cmd_data_bytes_replaces_payload() {
    let mut f = Frame::from_cmd(5, CmdData::Value16 { value: 42 });
    f.set_cmd_data_bytes(&[0x01, 0x00, 0x07, 0x00]).unwrap();
    assert_eq!(f.cmd_data, CmdData::Value16 { value: 7 });
    assert_eq!(
        f.set_cmd_data_bytes(&[0x01]),
        Err(ParseError::TooShort)
    );
    // a failed replacement leaves the frame unchanged
    assert_eq!(f.cmd_data, CmdData::Value16 { value: 7 });
}

#[test]
fn set_header_from_bytes_replaces_header() {
    let mut f = Frame::from_cmd(5, CmdData::Value16 { value: 42 });
    f.set_header_from_bytes(&[0xa5, 0x02, 0x00, 0x07, 0x0f]).unwrap();
    assert_eq!(f.header.data_length, 2);
    assert_eq!(f.header.seq, 7);
    assert_eq!(
        f.set_header_from_bytes(&[0xa5, 0x02, 0x00, 0x07, 0x10]),
        Err(ParseError::Crc8Mismatch)
    );
    assert_eq!(f.header.seq, 7);
}

#[test]
fn oversized_payload_is_reported_not_serialized() {
    let f = Frame {
        header: FrameHeader {
            data_length: 0,
            seq: 0,
            crc8: 0,
        },
        cmd_data: CmdData::Raw {
            cmd_id: 0x0200,
            data: vec![0u8; 0xfffe],
        },
        frame_tail: 0,
    };
    assert!(!f.payload_fits());
    assert!(f.try_to_bytes().is_none());
    let g = Frame::from_cmd(
        0,
        CmdData::Raw {
            cmd_id: 0x0200,
            data: vec![0u8; 0xfffd],
        },
    );
    let bytes = g.try_to_bytes().unwrap();
    assert_eq!(bytes.len(), 5 + 0xffff + 2);
    assert_eq!(Frame::parse(&bytes).unwrap(), g);
}

#[test]
fn frame_tail_getter_matches_wire_tail() {
    let f = Frame::from_cmd(5, CmdData::Value16 { value: 42 });
    let bytes = f.to_bytes();
    let n = bytes.len();
    let wire_tail = bytes[n - 2] as u16 | ((bytes[n - 1] as u16) << 8);
    assert_eq!(f.frame_tail(), wire_tail);
}
