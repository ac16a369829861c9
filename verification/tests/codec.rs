use rw3d::protocol::encoding::{
    Decode, DynSizedEncode, Encode, StringUtf16, StringUtf8, Tagged, UnknownTag,
};
use rw3d::protocol::packet::WitcherPacket;
use rw3d::protocol::packet_assembly::WitcherPacketAssembler;
use rw3d::protocol::packet_data::WitcherPacketData;
use rw3d::protocol::stream::{ByteStream, DecodeError, DecodeErrorKind, EncodeError, Field};

fn wire_of(data: &WitcherPacketData) -> Vec<u8> {
    let mut stream = ByteStream::new();
    data.encode_into(&mut stream).unwrap();
    stream.take_all()
}

fn decode_value(bytes: &[u8]) -> Result<WitcherPacketData, DecodeError> {
    let mut stream = ByteStream::from_vec(bytes.to_vec());
    WitcherPacketData::decode_from(&mut stream)
}

fn decode_packet(bytes: &[u8]) -> Result<WitcherPacket, DecodeError> {
    let mut stream = ByteStream::from_vec(bytes.to_vec());
    WitcherPacket::decode_from(&mut stream)
}

fn error(kind: DecodeErrorKind, field: Field) -> DecodeError {
    DecodeError { kind, field }
}

#[test]
fn integers_are_big_endian_behind_their_tag() {
    assert_eq!(wire_of(&WitcherPacketData::new_int8(18)), vec![0x81, 0x08, 0x12]);
    assert_eq!(wire_of(&WitcherPacketData::new_int8(-1)), vec![0x81, 0x08, 0xFF]);
    assert_eq!(wire_of(&WitcherPacketData::new_int16(25564)), vec![0x81, 0x16, 0x63, 0xDC]);
    assert_eq!(wire_of(&WitcherPacketData::new_int16(-2)), vec![0x81, 0x16, 0xFF, 0xFE]);
    assert_eq!(
        wire_of(&WitcherPacketData::new_int32(0x12345678)),
        vec![0x81, 0x32, 0x12, 0x34, 0x56, 0x78]
    );
    assert_eq!(
        wire_of(&WitcherPacketData::new_int32(-872363008)),
        vec![0x81, 0x32, 0xCC, 0x00, 0xCC, 0x00]
    );
    assert_eq!(
        wire_of(&WitcherPacketData::new_uint32(0xDEADBEEF)),
        vec![0x71, 0x32, 0xDE, 0xAD, 0xBE, 0xEF]
    );
    assert_eq!(
        wire_of(&WitcherPacketData::new_int64(-31742921364135)),
        vec![0x81, 0x64, 0xFF, 0xFF, 0xE3, 0x21, 0x46, 0x72, 0xAD, 0x59]
    );
    assert_eq!(
        wire_of(&WitcherPacketData::new_int64(i64::MIN)),
        vec![0x81, 0x64, 0x80, 0, 0, 0, 0, 0, 0, 0]
    );
}

#[test]
fn integers_round_trip_at_their_limits() {
    let values = vec![
        WitcherPacketData::new_int8(i8::MIN),
        WitcherPacketData::new_int8(i8::MAX),
        WitcherPacketData::new_int16(i16::MIN),
        WitcherPacketData::new_int16(i16::MAX),
        WitcherPacketData::new_int32(i32::MIN),
        WitcherPacketData::new_int32(i32::MAX),
        WitcherPacketData::new_uint32(0),
        WitcherPacketData::new_uint32(u32::MAX),
        WitcherPacketData::new_int64(i64::MIN),
        WitcherPacketData::new_int64(i64::MAX),
    ];
    for value in values {
        let bytes = wire_of(&value);
        assert_eq!(bytes.len(), value.encoded_size());
        assert_eq!(decode_value(&bytes).unwrap(), value);
    }
}

#[test]
fn strings_carry_a_tagged_length() {
    assert_eq!(
        wire_of(&WitcherPacketData::new_string_utf8("AB")),
        vec![0xAC, 0x08, 0x81, 0x16, 0x00, 0x02, 0x41, 0x42]
    );
    assert_eq!(
        wire_of(&WitcherPacketData::new_string_utf16("A")),
        vec![0x9C, 0x16, 0x81, 0x16, 0x00, 0x01, 0x00, 0x41]
    );
    // two bytes in UTF-8, one code unit in UTF-16
    assert_eq!(
        wire_of(&WitcherPacketData::new_string_utf8("ż")),
        vec![0xAC, 0x08, 0x81, 0x16, 0x00, 0x02, 0xC5, 0xBC]
    );
    assert_eq!(
        wire_of(&WitcherPacketData::new_string_utf16("ż")),
        vec![0x9C, 0x16, 0x81, 0x16, 0x00, 0x01, 0x01, 0x7C]
    );
    // beyond the basic plane: a surrogate pair, counted as two code units
    assert_eq!(
        wire_of(&WitcherPacketData::new_string_utf16("\u{1F600}")),
        vec![0x9C, 0x16, 0x81, 0x16, 0x00, 0x02, 0xD8, 0x3D, 0xDE, 0x00]
    );
    assert_eq!(wire_of(&WitcherPacketData::new_string_utf8("")), vec![0xAC, 0x08, 0x81, 0x16, 0, 0]);
}

#[test]
fn string_sizes_follow_the_formula() {
    let utf8 = StringUtf8("Zażółć".to_owned());
    assert_eq!(utf8.len_tagged(), Tagged::new(10i16));
    assert_eq!(utf8.bytes_encoded().len(), 10);
    assert_eq!(utf8.encoded_size(), 4 + 10);
    let utf16 = StringUtf16("Zażółć\u{1F600}".to_owned());
    assert_eq!(utf16.len_tagged(), Tagged::new(8i16));
    assert_eq!(utf16.bytes_encoded().len(), 16);
    assert_eq!(utf16.encoded_size(), 4 + 16);
    assert_eq!(Tagged::new(7i32).into_inner(), 7);
    assert_eq!(Tagged::new(7i32).encoded_size(), 6);
}

#[test]
fn strings_beyond_the_basic_plane_round_trip() {
    let text = "a\u{10000}b\u{10FFFF}c\u{FFFF}\u{E000}\u{D7FF}";
    for value in [
        WitcherPacketData::new_string_utf8(text),
        WitcherPacketData::new_string_utf16(text),
    ] {
        let bytes = wire_of(&value);
        assert_eq!(bytes.len(), value.encoded_size());
        assert_eq!(decode_value(&bytes).unwrap(), value);
    }
}

#[test]
fn longest_strings_round_trip() {
    let longest = "x".repeat(0x7FFF);
    for value in [
        WitcherPacketData::new_string_utf8(&longest),
        WitcherPacketData::new_string_utf16(&longest),
    ] {
        let bytes = wire_of(&value);
        assert_eq!(&bytes[2..6], &[0x81, 0x16, 0x7F, 0xFF]);
        assert_eq!(decode_value(&bytes).unwrap(), value);
    }
    // the length counts bytes in UTF-8 and code units in UTF-16
    let wide = "ż".repeat(0x7FFF);
    assert_eq!(decode_value(&wire_of(&WitcherPacketData::new_string_utf16(&wide))).unwrap(),
        WitcherPacketData::new_string_utf16(&wide));
    let mut stream = ByteStream::new();
    assert_eq!(
        WitcherPacketData::new_string_utf8(&wide).encode_into(&mut stream),
        Err(EncodeError::StringTooLong)
    );
    assert_eq!(stream.len(), 0);
}

#[test]
fn too_long_strings_have_no_wire_form() {
    let too_long = "x".repeat(0x8000);
    let mut stream = ByteStream::new();
    stream.write_byte(7);
    assert_eq!(
        WitcherPacketData::new_string_utf8(&too_long).encode_into(&mut stream),
        Err(EncodeError::StringTooLong)
    );
    assert_eq!(
        WitcherPacketData::new_string_utf16(&too_long).encode_into(&mut stream),
        Err(EncodeError::StringTooLong)
    );
    let packet = WitcherPacketAssembler::new().int8(1).string_utf16(&too_long).finish();
    assert_eq!(packet.encode_into(&mut stream), Err(EncodeError::StringTooLong));
    assert_eq!(packet.to_bytes(), Err(EncodeError::StringTooLong));
    assert_eq!(stream.take_all(), vec![7]);
}

#[test]
fn too_large_packets_have_no_wire_form() {
    let chunk = "x".repeat(0x7FFF);
    let fits = WitcherPacketAssembler::new().string_utf8(&chunk).string_utf8(&"x".repeat(0x7FEE)).finish();
    assert_eq!(fits.encoded_size(), 0xFFFF);
    let bytes = fits.to_bytes().unwrap();
    assert_eq!(bytes.len(), 0xFFFF);
    assert_eq!(&bytes[2..4], &[0xFF, 0xFF]);
    assert_eq!(decode_packet(&bytes).unwrap(), fits);
    let too_large = WitcherPacketAssembler::new().string_utf8(&chunk).string_utf8(&"x".repeat(0x7FEF)).finish();
    assert_eq!(too_large.encoded_size(), 0x10000);
    let mut stream = ByteStream::new();
    assert_eq!(too_large.encode_into(&mut stream), Err(EncodeError::PacketTooLarge));
    assert_eq!(stream.len(), 0);
}

#[test]
fn unknown_tags_are_kept_byte_for_byte() {
    let decoded = decode_value(&[0x12, 0x34, 0xAA]).unwrap();
    assert_eq!(decoded, WitcherPacketData::new_unknown(UnknownTag([0x12, 0x34])));
    assert_eq!(decoded.encoded_size(), 2);
    assert_eq!(wire_of(&decoded), vec![0x12, 0x34]);
    let mut stream = ByteStream::from_vec(vec![0x12, 0x34, 0xAA]);
    WitcherPacketData::decode_from(&mut stream).unwrap();
    assert_eq!(stream.take_all(), vec![0xAA]);
}

#[test]
fn invalid_text_is_decoded_with_replacements() {
    let utf8 = decode_value(&[0xAC, 0x08, 0x81, 0x16, 0x00, 0x03, 0x41, 0xFF, 0x42]).unwrap();
    assert_eq!(utf8, WitcherPacketData::new_string_utf8("A\u{FFFD}B"));
    let utf16 =
        decode_value(&[0x9C, 0x16, 0x81, 0x16, 0x00, 0x03, 0x00, 0x41, 0xD8, 0x00, 0x00, 0x42])
            .unwrap();
    assert_eq!(utf16, WitcherPacketData::new_string_utf16("A\u{FFFD}B"));
}

#[test]
fn truncated_values_are_errors_that_name_the_field() {
    let eof = |field| Err(error(DecodeErrorKind::UnexpectedEof, field));
    assert_eq!(decode_value(&[]), eof(Field::Tag));
    assert_eq!(decode_value(&[0x81]), eof(Field::Tag));
    assert_eq!(decode_value(&[0x81, 0x08]), eof(Field::Int8));
    assert_eq!(decode_value(&[0x81, 0x16, 0x00]), eof(Field::Int16));
    assert_eq!(decode_value(&[0x81, 0x32, 0, 0, 0]), eof(Field::Int32));
    assert_eq!(decode_value(&[0x71, 0x32, 0, 0, 0]), eof(Field::UInt32));
    assert_eq!(decode_value(&[0x81, 0x64, 0, 0, 0, 0, 0, 0, 0]), eof(Field::Int64));
    assert_eq!(decode_value(&[0xAC, 0x08, 0x81]), eof(Field::Utf8Length));
    assert_eq!(decode_value(&[0xAC, 0x08, 0x81, 0x16, 0x00]), eof(Field::Utf8Length));
    assert_eq!(decode_value(&[0xAC, 0x08, 0x81, 0x16, 0x00, 0x02, 0x41]), eof(Field::Utf8Content));
    assert_eq!(decode_value(&[0x9C, 0x16]), eof(Field::Utf16Length));
    assert_eq!(
        decode_value(&[0x9C, 0x16, 0x81, 0x16, 0x00, 0x01, 0x41]),
        eof(Field::Utf16Content)
    );
    let mut stream = ByteStream::from_vec(vec![0x01]);
    assert_eq!(
        u16::decode_from(&mut stream),
        Err(error(DecodeErrorKind::UnexpectedEof, Field::UInt16))
    );
}

#[test]
fn bad_length_prefixes_are_errors() {
    assert_eq!(
        decode_value(&[0xAC, 0x08, 0x81, 0x32, 0x00, 0x01, 0x41]),
        Err(error(DecodeErrorKind::Mismatch, Field::Utf8Length))
    );
    assert_eq!(
        decode_value(&[0x9C, 0x16, 0x71, 0x32, 0x00, 0x01, 0x00, 0x41]),
        Err(error(DecodeErrorKind::Mismatch, Field::Utf16Length))
    );
    assert_eq!(
        decode_value(&[0xAC, 0x08, 0x81, 0x16, 0xFF, 0xFF, 0x41]),
        Err(error(DecodeErrorKind::NegativeLength, Field::Utf8Length))
    );
    assert_eq!(
        decode_value(&[0x9C, 0x16, 0x81, 0x16, 0x80, 0x00]),
        Err(error(DecodeErrorKind::NegativeLength, Field::Utf16Length))
    );
}

#[test]
fn tagged_values_demand_their_own_tag() {
    let mut stream = ByteStream::from_vec(vec![0x81, 0x16, 0x00, 0x05]);
    assert_eq!(
        Tagged::<i8>::decode_from(&mut stream),
        Err(error(DecodeErrorKind::Mismatch, Field::Tag))
    );
    assert_eq!(stream.len(), 4);
    assert_eq!(Tagged::<i16>::decode_from(&mut stream), Ok(Tagged::new(5i16)));
    assert_eq!(stream.len(), 0);
    assert_eq!(
        Tagged::<i16>::decode_from(&mut stream),
        Err(error(DecodeErrorKind::UnexpectedEof, Field::Tag))
    );
}

#[test]
fn empty_packet_round_trips() {
    let empty = WitcherPacket::new();
    assert_eq!(WitcherPacket::min_encoded_size(), 6);
    assert_eq!(empty.encoded_size(), 6);
    assert_eq!(empty.size(), 6);
    let bytes = empty.to_bytes().unwrap();
    assert_eq!(bytes, vec![0xDE, 0xAD, 0x00, 0x06, 0xBE, 0xEF]);
    assert_eq!(decode_packet(&bytes).unwrap(), empty);
}

#[test]
fn packet_size_field_is_the_encoded_size() {
    let packet = WitcherPacketAssembler::new()
        .string_utf8("Remote")
        .int32(0x12345678)
        .int64(-5)
        .uint32(9)
        .int16(3)
        .int8(1)
        .string_utf16("spawn")
        .finish();
    let expected = 6 + 12 + 6 + 10 + 6 + 4 + 3 + 16;
    assert_eq!(packet.encoded_size(), expected);
    let bytes = packet.to_bytes().unwrap();
    assert_eq!(bytes.len(), expected);
    assert_eq!(&bytes[..4], &[0xDE, 0xAD, 0x00, expected as u8]);
    assert_eq!(&bytes[bytes.len() - 2..], &[0xBE, 0xEF]);
    let mut stream = ByteStream::from_vec(bytes);
    stream.write_all(&[1, 2, 3]);
    assert_eq!(WitcherPacket::decode_from(&mut stream).unwrap(), packet);
    assert_eq!(stream.take_all(), vec![1, 2, 3]);
}

#[test]
fn framing_errors_name_what_failed() {
    assert_eq!(decode_packet(&[]), Err(error(DecodeErrorKind::UnexpectedEof, Field::PacketHead)));
    assert_eq!(decode_packet(&[0xDE]), Err(error(DecodeErrorKind::UnexpectedEof, Field::PacketHead)));
    assert_eq!(
        decode_packet(&[0xDE, 0xAF, 0x00, 0x06, 0xBE, 0xEF]),
        Err(error(DecodeErrorKind::Mismatch, Field::PacketHead))
    );
    assert_eq!(
        decode_packet(&[0xDE, 0xAD, 0x00]),
        Err(error(DecodeErrorKind::UnexpectedEof, Field::PacketSize))
    );
    assert_eq!(
        decode_packet(&[0xDE, 0xAD, 0x00, 0x05, 0xBE, 0xEF]),
        Err(error(DecodeErrorKind::SizeTooSmall, Field::PacketSize))
    );
    assert_eq!(
        decode_packet(&[0xDE, 0xAD, 0x00, 0x06, 0xBE]),
        Err(error(DecodeErrorKind::UnexpectedEof, Field::PacketTail))
    );
    assert_eq!(
        decode_packet(&[0xDE, 0xAD, 0x00, 0x06, 0xBE, 0xEE]),
        Err(error(DecodeErrorKind::Mismatch, Field::PacketTail))
    );
    assert_eq!(
        decode_packet(&[0xDE, 0xAD, 0x00, 0x09, 0x81, 0x08]),
        Err(error(DecodeErrorKind::UnexpectedEof, Field::Int8))
    );
}

#[test]
fn failed_decoding_consumes_nothing() {
    let bytes = vec![0xDE, 0xAD, 0x00, 0x09, 0x81, 0x08, 0x05, 0xBE];
    let mut stream = ByteStream::from_vec(bytes.clone());
    assert!(WitcherPacket::decode_from(&mut stream).is_err());
    assert_eq!(stream.len(), bytes.len());
    stream.write_byte(0xEF);
    let packet = WitcherPacket::decode_from(&mut stream).unwrap();
    assert_eq!(packet, WitcherPacketAssembler::new().int8(5).finish());
    assert_eq!(stream.len(), 0);
}

#[test]
fn the_budget_not_the_bytes_ends_the_payload() {
    // a tail-like pair of bytes inside the payload is a value like any other
    let packet = WitcherPacket::new()
        .append(WitcherPacketData::new_unknown(UnknownTag([0xBE, 0xEF])))
        .append_int8(1);
    let bytes = packet.to_bytes().unwrap();
    assert_eq!(bytes, vec![0xDE, 0xAD, 0x00, 0x0B, 0xBE, 0xEF, 0x81, 0x08, 0x01, 0xBE, 0xEF]);
    assert_eq!(decode_packet(&bytes).unwrap(), packet);
    // a value that overshoots the budget is the last, and the tail follows it
    let overshoot = vec![0xDE, 0xAD, 0x00, 0x07, 0x81, 0x08, 0x01, 0xBE, 0xEF];
    assert_eq!(decode_packet(&overshoot).unwrap(), WitcherPacket::new().append_int8(1));
    // a budget that is left over asks for another value
    let starved = vec![0xDE, 0xAD, 0x00, 0x0A, 0x81, 0x08, 0x01, 0xBE, 0xEF];
    assert_eq!(
        decode_packet(&starved),
        Err(error(DecodeErrorKind::UnexpectedEof, Field::PacketTail))
    );
}

#[test]
fn payload_bytes_decode_value_by_value() {
    let bytes = vec![0x81, 0x08, 0x01, 0x12, 0x34, 0x81, 0x16, 0x00, 0x02];
    let values = WitcherPacketData::from_bytes(&bytes).unwrap();
    assert_eq!(
        values,
        vec![
            WitcherPacketData::new_int8(1),
            WitcherPacketData::new_unknown(UnknownTag([0x12, 0x34])),
            WitcherPacketData::new_int16(2),
        ]
    );
    assert_eq!(WitcherPacketData::from_bytes(&[]).unwrap(), vec![]);
    assert_eq!(
        WitcherPacketData::from_bytes(&[0x81, 0x08]),
        Err(error(DecodeErrorKind::UnexpectedEof, Field::Int8))
    );
    assert_eq!(values[0].size(), 3);
    assert_eq!(values[0].to_bytes().unwrap(), vec![0x81, 0x08, 0x01]);
}

#[test]
fn stream_is_a_queue_of_bytes() {
    let mut stream = ByteStream::new();
    stream.write_all(&[1, 2, 3, 4, 5]);
    stream.write_be16(0x0607);
    stream.write_be32(0x08090A0B);
    stream.write_be64(0x0C0D0E0F10111213);
    assert_eq!(stream.len(), 19);
    stream.advance(2);
    assert_eq!(stream.as_slice()[..3], [3, 4, 5]);
    stream.truncate(5);
    assert_eq!(stream.as_slice(), &[3, 4, 5, 6, 7]);
    stream.write_byte(9);
    assert_eq!(stream.take_all(), vec![3, 4, 5, 6, 7, 9]);
    assert_eq!(stream.len(), 0);
}

#[test]
fn values_compare_by_what_they_hold() {
    let a = WitcherPacketData::new_string_utf8("same");
    let b = WitcherPacketData::new_string_utf8("same");
    let c = WitcherPacketData::new_string_utf16("same");
    assert!(a.same_as(&b));
    assert!(!a.same_as(&c));
    assert!(a.clone().same_as(&a));
    assert!(!WitcherPacketData::new_int32(1).same_as(&WitcherPacketData::new_uint32(1)));
    assert!(WitcherPacketData::new_unknown(UnknownTag([1, 2]))
        .same_as(&WitcherPacketData::new_unknown(UnknownTag([1, 2]))));
}
