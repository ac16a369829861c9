use rw3d::protocol::encoding::{Decode, DynSizedEncode, Encode};
use rw3d::protocol::packet_data::WitcherPacketData;
use rw3d::protocol::stream::ByteStream;

#[test]
fn packet_data_packet_data_int8_parse_test() {
    let i = WitcherPacketData::new_int8(18i8);
    let mut bytes = ByteStream::new();
    i.encode_into(&mut bytes).unwrap();
    let packet = WitcherPacketData::decode_from(&mut bytes).unwrap();
    let bytes_read = packet.encoded_size();

    assert_eq!(packet, i);
    assert_eq!(bytes_read, 3);
}

#[test]
fn packet_data_packet_data_int16_parse_test() {
    let i = WitcherPacketData::new_int16(25564i16);
    let mut bytes = ByteStream::new();
    i.encode_into(&mut bytes).unwrap();
    let packet = WitcherPacketData::decode_from(&mut bytes).unwrap();
    let bytes_read = packet.encoded_size();

    assert_eq!(packet, i);
    assert_eq!(bytes_read, 4);
}

#[test]
fn packet_data_packet_data_int32_parse_test() {
    let i = WitcherPacketData::new_int32(912739132i32);
    let mut bytes = ByteStream::new();
    i.encode_into(&mut bytes).unwrap();
    let packet = WitcherPacketData::decode_from(&mut bytes).unwrap();
    let bytes_read = packet.encoded_size();

    assert_eq!(packet, i);
    assert_eq!(bytes_read, 6);
}

#[test]
fn packet_data_packet_data_uint32_parse_test() {
    let i = WitcherPacketData::new_uint32(912739132u32);
    let mut bytes = ByteStream::new();
    i.encode_into(&mut bytes).unwrap();
    let packet = WitcherPacketData::decode_from(&mut bytes).unwrap();
    let bytes_read = packet.encoded_size();

    assert_eq!(packet, i);
    assert_eq!(bytes_read, 6);
}

#[test]
fn packet_data_packet_data_int64_parse_test() {
    let i = WitcherPacketData::new_int64(-31742921364135i64);
    let mut bytes = ByteStream::new();
    i.encode_into(&mut bytes).unwrap();
    let packet = WitcherPacketData::decode_from(&mut bytes).unwrap();
    let bytes_read = packet.encoded_size();

    assert_eq!(packet, i);
    assert_eq!(bytes_read, 10);
}

#[test]
fn packet_data_packet_data_string_utf8_parse_test() {
    let i = WitcherPacketData::new_string_utf8("Gaderypoluki");
    let mut bytes = ByteStream::new();
    i.encode_into(&mut bytes).unwrap();
    let packet = WitcherPacketData::decode_from(&mut bytes).unwrap();
    let bytes_read = packet.encoded_size();

    assert_eq!(packet, i);
    assert_eq!(bytes_read, 18);
}

#[test]
fn packet_data_packet_data_string_utf16_parse_test() {
    let i = WitcherPacketData::new_string_utf16("Zażółć gęślą jaźń");
    let mut bytes = ByteStream::new();
    i.encode_into(&mut bytes).unwrap();
    let packet = WitcherPacketData::decode_from(&mut bytes).unwrap();
    let bytes_read = packet.encoded_size();

    assert_eq!(packet, i);
    assert_eq!(bytes_read, 40);
}

#[test]
fn tests_packet_data_int8_parse_test() {
    let i = WitcherPacketData::new_int8(18i8);
    let mut bytes = ByteStream::new();
    i.encode_into(&mut bytes).unwrap();
    let packet = WitcherPacketData::decode_from(&mut bytes).unwrap();
    let bytes_read = packet.encoded_size();

    assert_eq!(packet, i);
    assert_eq!(bytes_read, 3);

    let bytes = i.to_bytes().unwrap();
    let packets = WitcherPacketData::from_bytes(bytes.as_slice());

    assert!(packets.is_ok());
    let packets = packets.unwrap();

    assert_eq!(packets.len(), 1);
    assert!(packets[0] == i);
}

#[test]
fn tests_packet_data_int16_parse_test() {
    let i = WitcherPacketData::new_int16(25564i16);
    let mut bytes = ByteStream::new();
    i.encode_into(&mut bytes).unwrap();
    let packet = WitcherPacketData::decode_from(&mut bytes).unwrap();
    let bytes_read = packet.encoded_size();

    assert_eq!(packet, i);
    assert_eq!(bytes_read, 4);

    let bytes = i.to_bytes().unwrap();
    let packets = WitcherPacketData::from_bytes(bytes.as_slice());

    assert!(packets.is_ok());
    let packets = packets.unwrap();

    assert_eq!(packets.len(), 1);
    assert!(packets[0] == i);
}

#[test]
fn tests_packet_data_int32_parse_test() {
    let i = WitcherPacketData::new_int32(912739132i32);
    let mut bytes = ByteStream::new();
    i.encode_into(&mut bytes).unwrap();
    let packet = WitcherPacketData::decode_from(&mut bytes).unwrap();
    let bytes_read = packet.encoded_size();

    assert_eq!(packet, i);
    assert_eq!(bytes_read, 6);

    let bytes = i.to_bytes().unwrap();
    let packets = WitcherPacketData::from_bytes(bytes.as_slice());

    assert!(packets.is_ok());
    let packets = packets.unwrap();

    assert_eq!(packets.len(), 1);
    assert!(packets[0] == i);
}

#[test]
fn tests_packet_data_uint32_parse_test() {
    let i = WitcherPacketData::new_uint32(912739132u32);
    let mut bytes = ByteStream::new();
    i.encode_into(&mut bytes).unwrap();
    let packet = WitcherPacketData::decode_from(&mut bytes).unwrap();
    let bytes_read = packet.encoded_size();

    assert_eq!(packet, i);
    assert_eq!(bytes_read, 6);

    let bytes = i.to_bytes().unwrap();
    let packets = WitcherPacketData::from_bytes(bytes.as_slice());

    assert!(packets.is_ok());
    let packets = packets.unwrap();

    assert_eq!(packets.len(), 1);
    assert!(packets[0] == i);
}

#[test]
fn tests_packet_data_int64_parse_test() {
    let i = WitcherPacketData::new_int64(-31742921364135i64);
    let mut bytes = ByteStream::new();
    i.encode_into(&mut bytes).unwrap();
    let packet = WitcherPacketData::decode_from(&mut bytes).unwrap();
    let bytes_read = packet.encoded_size();

    assert_eq!(packet, i);
    assert_eq!(bytes_read, 10);

    let bytes = i.to_bytes().unwrap();
    let packets = WitcherPacketData::from_bytes(bytes.as_slice());

    assert!(packets.is_ok());
    let packets = packets.unwrap();

    assert_eq!(packets.len(), 1);
    assert!(packets[0] == i);
}

#[test]
fn tests_packet_data_string_utf8_parse_test() {
    let i = WitcherPacketData::new_string_utf8("Gaderypoluki");
    let mut bytes = ByteStream::new();
    i.encode_into(&mut bytes).unwrap();
    let packet = WitcherPacketData::decode_from(&mut bytes).unwrap();
    let bytes_read = packet.encoded_size();

    assert_eq!(packet, i);
    assert_eq!(bytes_read, 18);

    let bytes = i.to_bytes().unwrap();
    let packets = WitcherPacketData::from_bytes(bytes.as_slice());

    assert!(packets.is_ok());
    let packets = packets.unwrap();

    assert_eq!(packets.len(), 1);
    assert!(packets[0] == i);
}

#[test]
fn tests_packet_data_string_utf16_parse_test() {
    let i = WitcherPacketData::new_string_utf16("Zażółć gęślą jaźń");
    let mut bytes = ByteStream::new();
    i.encode_into(&mut bytes).unwrap();
    let packet = WitcherPacketData::decode_from(&mut bytes).unwrap();
    let bytes_read = packet.encoded_size();

    assert_eq!(packet, i);
    assert_eq!(bytes_read, 40);

    let bytes = i.to_bytes().unwrap();
    let packets = WitcherPacketData::from_bytes(bytes.as_slice());

    assert!(packets.is_ok());
    let packets = packets.unwrap();

    assert_eq!(packets.len(), 1);
    assert!(packets[0] == i);
}

