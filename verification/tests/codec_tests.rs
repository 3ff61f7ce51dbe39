use mqtt_codec::buffer_reader::BuffReader;
use mqtt_codec::buffer_writer::BuffWriter;
use mqtt_codec::error::CodecError;
use mqtt_codec::mqtt_packet::Packet;
use mqtt_codec::property::{Property, PropertyValue};
use mqtt_codec::pubrec_packet::PubrecPacket;
use mqtt_codec::variable_byte_integer::VariableByteIntegerEncoder;

fn encode_to_bytes(packet: &PubrecPacket, capacity: usize) -> (Vec<u8>, usize) {
    let mut writer = BuffWriter::new(capacity);
    let written = packet.encode(&mut writer).expect("encode failed");
    (writer.buffer, written)
}

#[test]
fn empty_packet_exact_bytes() {
    let mut packet = PubrecPacket::new();
    packet.set_fixed_header(0x50);
    packet.packet_identifier = 0x1234;
    packet.reason_code = 0x00;
    let (bytes, written) = encode_to_bytes(&packet, 64);
    assert_eq!(written, 6);
    // remaining length 4: identifier (2) + reason code (1) + property-length field (1)
    assert_eq!(bytes, vec![0x50, 0x04, 0x12, 0x34, 0x00, 0x00]);
}

#[test]
fn round_trip_with_properties() {
    let mut packet = PubrecPacket::new();
    packet.set_fixed_header(0x50);
    packet.packet_identifier = 0xBEEF;
    packet.reason_code = 0x10;
    let props = vec![
        Property { identifier: 1, value: PropertyValue::Byte(7) },
        Property { identifier: 35, value: PropertyValue::TwoByteInt(0x0102) },
        Property { identifier: 2, value: PropertyValue::FourByteInt(0xDEADBEEF) },
        Property { identifier: 11, value: PropertyValue::VariableByteInt(300) },
        Property { identifier: 31, value: PropertyValue::Utf8String(b"reason".to_vec()) },
        Property {
            identifier: 38,
            value: PropertyValue::StringPair(b"key".to_vec(), b"value".to_vec()),
        },
        Property { identifier: 9, value: PropertyValue::BinaryData(vec![0, 1, 2, 255]) },
    ];
    for p in &props {
        packet.push_to_properties(p.clone()).expect("push failed");
    }
    let (bytes, written) = encode_to_bytes(&packet, 1024);
    assert_eq!(bytes.len(), written);

    let mut decoded = PubrecPacket::new();
    let mut reader = BuffReader::new(bytes);
    decoded.decode(&mut reader).expect("decode failed");
    assert_eq!(decoded.fixed_header, 0x50);
    assert_eq!(decoded.packet_identifier, 0xBEEF);
    assert_eq!(decoded.reason_code, 0x10);
    assert_eq!(decoded.properties.len(), props.len());
    for (i, p) in props.iter().enumerate() {
        assert_eq!(&decoded.properties[i], p);
    }
    // the remaining length seen on the wire covers everything after itself
    assert_eq!(decoded.remain_len as usize, written - 2);
}

#[test]
fn round_trip_twice_is_stable() {
    let mut packet = PubrecPacket::new();
    packet.set_fixed_header(0x50);
    packet.packet_identifier = 42;
    packet.reason_code = 0x92;
    packet
        .push_to_properties(Property {
            identifier: 31,
            value: PropertyValue::Utf8String(b"not authorized".to_vec()),
        })
        .expect("push failed");
    let (bytes, _) = encode_to_bytes(&packet, 256);
    let mut decoded = PubrecPacket::new();
    let mut reader = BuffReader::new(bytes.clone());
    decoded.decode(&mut reader).expect("decode failed");
    let (bytes2, _) = encode_to_bytes(&decoded, 256);
    assert_eq!(bytes, bytes2);
}

#[test]
fn variable_byte_int_round_trip_and_widths() {
    let cases: Vec<(u32, usize)> = vec![
        (0, 1),
        (1, 1),
        (127, 1),
        (128, 2),
        (300, 2),
        (16383, 2),
        (16384, 3),
        (2097151, 3),
        (2097152, 4),
        (0x0FFF_FFFF, 4),
    ];
    for (value, width) in cases {
        let encoded = VariableByteIntegerEncoder::encode(value).expect("encode failed");
        assert_eq!(VariableByteIntegerEncoder::len(encoded), width, "width of {}", value);
        let mut reader = BuffReader::new(encoded.to_vec());
        let back = reader.read_variable_byte_int().expect("decode failed");
        assert_eq!(back, value);
        assert_eq!(reader.position, width);
    }
}

#[test]
fn variable_byte_int_rejects_out_of_range() {
    assert_eq!(
        VariableByteIntegerEncoder::encode(0x1000_0000),
        Err(CodecError::MalformedVariableInt)
    );
    assert_eq!(VariableByteIntegerEncoder::encode(u32::MAX), Err(CodecError::MalformedVariableInt));
}

#[test]
fn variable_byte_int_malformed_and_truncated() {
    // four continuation bytes in a row: the encoding is too long
    let mut reader = BuffReader::new(vec![0x80, 0x80, 0x80, 0x80, 0x01]);
    assert_eq!(reader.read_variable_byte_int(), Err(CodecError::MalformedVariableInt));
    // the buffer ends while the continuation bit still asks for more
    let mut reader = BuffReader::new(vec![0x80]);
    assert_eq!(reader.read_variable_byte_int(), Err(CodecError::EndOfBuffer));
}

#[test]
fn wrong_packet_type_leaves_packet_unpopulated() {
    // a PUBACK-shaped header (nibble 4) handed to the PUBREC decoder
    let bytes = vec![0x40, 0x03, 0x12, 0x34, 0x00, 0x00];
    let mut packet = PubrecPacket::new();
    let mut reader = BuffReader::new(bytes);
    assert_eq!(packet.decode(&mut reader), Err(CodecError::WrongPacketType));
    assert_eq!(packet.fixed_header, 0);
    assert_eq!(packet.remain_len, 0);
    assert_eq!(packet.packet_identifier, 0);
    assert_eq!(packet.reason_code, 0);
    assert_eq!(packet.property_len, 0);
    assert_eq!(packet.properties.len(), 0);
}

#[test]
fn capacity_exceeded_keeps_existing_properties() {
    let mut packet = PubrecPacket::new();
    packet.set_fixed_header(0x50);
    for i in 0..16u8 {
        packet
            .push_to_properties(Property { identifier: 1, value: PropertyValue::Byte(i) })
            .expect("push within capacity failed");
    }
    let overflow = Property { identifier: 1, value: PropertyValue::Byte(99) };
    assert_eq!(packet.push_to_properties(overflow), Err(CodecError::CapacityExceeded));
    assert_eq!(packet.properties.len(), 16);
    for i in 0..16u8 {
        assert_eq!(packet.properties[i as usize].value, PropertyValue::Byte(i));
    }
}

#[test]
fn truncated_identifier_is_end_of_buffer() {
    // the buffer ends midway through the two-byte packet identifier
    let bytes = vec![0x50, 0x03, 0x12];
    let mut packet = PubrecPacket::new();
    let mut reader = BuffReader::new(bytes);
    assert_eq!(packet.decode(&mut reader), Err(CodecError::EndOfBuffer));
    assert_eq!(packet.packet_identifier, 0);
}

#[test]
fn unknown_property_identifier_is_reported() {
    // identifier 127 has no wire-shape mapping
    let bytes = vec![0x50, 0x05, 0x12, 0x34, 0x00, 0x02, 0x7F, 0x00];
    let mut packet = PubrecPacket::new();
    let mut reader = BuffReader::new(bytes);
    assert_eq!(packet.decode(&mut reader), Err(CodecError::UnknownPropertyIdentifier));
}

#[test]
fn property_length_mismatch_is_reported() {
    // the declared property length (1) ends inside the first property (2 bytes)
    let bytes = vec![0x50, 0x04, 0x12, 0x34, 0x00, 0x01, 0x01, 0x07];
    let mut packet = PubrecPacket::new();
    let mut reader = BuffReader::new(bytes);
    assert_eq!(packet.decode(&mut reader), Err(CodecError::PropertyLengthMismatch));
}

#[test]
fn encode_without_room_is_end_of_buffer() {
    let mut packet = PubrecPacket::new();
    packet.set_fixed_header(0x50);
    packet.packet_identifier = 1;
    let mut writer = BuffWriter::new(5);
    assert_eq!(packet.encode(&mut writer), Err(CodecError::EndOfBuffer));
    assert_eq!(writer.buffer.len(), 0);
}

#[test]
fn reader_primitives_are_big_endian() {
    let mut reader = BuffReader::new(vec![0xAB, 0x01, 0x02, 0x11, 0x22, 0x33, 0x44, 0x99]);
    assert_eq!(reader.read_u8(), Ok(0xAB));
    assert_eq!(reader.read_u16(), Ok(0x0102));
    assert_eq!(reader.read_u32(), Ok(0x11223344));
    assert_eq!(reader.position, 7);
    let rest = reader.read_bytes(1).expect("read_bytes failed");
    assert_eq!(rest, vec![0x99]);
    assert_eq!(reader.read_u8(), Err(CodecError::EndOfBuffer));
}

#[test]
fn writer_primitives_are_big_endian() {
    let mut writer = BuffWriter::new(16);
    writer.write_u8(0xAB).expect("write_u8 failed");
    writer.write_u16(0x0102).expect("write_u16 failed");
    writer.write_u32(0x11223344).expect("write_u32 failed");
    writer.write_variable_byte_int(300).expect("write vbi failed");
    writer.write_slice(&vec![0x77]).expect("write_slice failed");
    assert_eq!(writer.position(), 10);
    assert_eq!(
        writer.buffer,
        vec![0xAB, 0x01, 0x02, 0x11, 0x22, 0x33, 0x44, 0xAC, 0x02, 0x77]
    );
}

#[test]
fn writer_refuses_writes_past_capacity() {
    let mut writer = BuffWriter::new(1);
    assert_eq!(writer.write_u16(7), Err(CodecError::EndOfBuffer));
    assert_eq!(writer.position(), 0);
    writer.write_u8(1).expect("write_u8 failed");
    assert_eq!(writer.write_u8(2), Err(CodecError::EndOfBuffer));
    assert_eq!(writer.buffer, vec![1]);
}

#[test]
fn single_property_exact_bytes() {
    let p = Property {
        identifier: 38,
        value: PropertyValue::StringPair(b"ab".to_vec(), b"c".to_vec()),
    };
    assert_eq!(p.encoded_length(), 8);
    let mut writer = BuffWriter::new(32);
    let written = p.encode_one(&mut writer).expect("encode_one failed");
    assert_eq!(written, 8);
    assert_eq!(
        writer.buffer,
        vec![38, 0x00, 0x02, b'a', b'b', 0x00, 0x01, b'c']
    );
    let mut reader = BuffReader::new(writer.buffer);
    let back = Property::decode_one(&mut reader).expect("decode_one failed");
    assert_eq!(back, p);
}

#[test]
fn accessor_methods_store_fields() {
    let mut packet = PubrecPacket::new();
    packet.set_fixed_header(0x52);
    packet.set_remaining_len(17);
    packet.set_property_len(5);
    assert_eq!(packet.fixed_header, 0x52);
    assert_eq!(packet.remain_len, 17);
    assert_eq!(packet.get_property_len(), 5);
}

#[test]
fn decode_positions_reader_after_packet() {
    let mut packet = PubrecPacket::new();
    packet.set_fixed_header(0x50);
    packet.packet_identifier = 7;
    let (mut bytes, written) = encode_to_bytes(&packet, 64);
    bytes.push(0xEE);
    let mut decoded = PubrecPacket::new();
    let mut reader = BuffReader::new(bytes);
    decoded.decode(&mut reader).expect("decode failed");
    assert_eq!(reader.position, written);
    assert_eq!(reader.read_u8(), Ok(0xEE));
}

#[test]
fn duplicate_identifiers_pass_through_in_order() {
    // duplicates are not policed here: the codec is a pass-through container
    let mut packet = PubrecPacket::new();
    packet.set_fixed_header(0x50);
    packet.packet_identifier = 3;
    let first = Property { identifier: 31, value: PropertyValue::Utf8String(b"one".to_vec()) };
    let second = Property { identifier: 31, value: PropertyValue::Utf8String(b"two".to_vec()) };
    packet.push_to_properties(first.clone()).expect("push failed");
    packet.push_to_properties(second.clone()).expect("push failed");
    let (bytes, _) = encode_to_bytes(&packet, 256);
    let mut decoded = PubrecPacket::new();
    let mut reader = BuffReader::new(bytes);
    decoded.decode(&mut reader).expect("decode failed");
    assert_eq!(decoded.properties.len(), 2);
    assert_eq!(decoded.properties[0], first);
    assert_eq!(decoded.properties[1], second);
}
