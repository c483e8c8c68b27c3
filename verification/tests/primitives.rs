use cloudmqtt::wire::integers::decode_varint;
use cloudmqtt::wire::integers::encode_varint;
use cloudmqtt::wire::integers::varint_len;
use cloudmqtt::wire::read::DecodeError;
use cloudmqtt::wire::read::Reader;
use cloudmqtt::wire::strings::MqttBytes;
use cloudmqtt::wire::strings::MqttString;
use cloudmqtt::wire::strings::MqttStringError;
use cloudmqtt::wire::write::BoundedWriter;
use cloudmqtt::wire::write::CountingWriter;
use cloudmqtt::wire::write::MqttWriteError;
use cloudmqtt::wire::write::VecWriter;
use cloudmqtt::wire::write::WriteMqttPacket;

#[test]
fn test_write_u32_1() {
    let mut writer = VecWriter { buffer: Vec::new() };
    writer.write_u32(1).unwrap();
    assert_eq!(writer.buffer, [0x00, 0x00, 0x00, 0x01]);
}

#[test]
fn test_write_u32_12() {
    let mut writer = VecWriter { buffer: Vec::new() };
    writer.write_u32(12).unwrap();
    assert_eq!(writer.buffer, [0x00, 0x00, 0x00, 12u8.to_be()]);
}

#[test]
fn test_write_u32_range() {
    // step by some prime number
    for i in (0..268_435_455).step_by(271) {
        let mut writer = VecWriter { buffer: Vec::new() };
        writer.write_u32(i).unwrap();
        assert_eq!(writer.buffer, i.to_be_bytes());
    }
}

#[test]
fn write_u16_is_big_endian() {
    let mut writer = VecWriter::new();
    writer.write_u16(0x1234).unwrap();
    assert_eq!(writer.buffer, [0x12, 0x34]);
    let mut reader = Reader::new(&writer.buffer);
    assert_eq!(reader.take_u16_be(), Ok(0x1234));
    assert!(reader.is_empty());
}

#[test]
fn varint_examples() {
    assert_eq!(encode_varint(0).unwrap(), vec![0x00]);
    assert_eq!(encode_varint(127).unwrap(), vec![0x7f]);
    assert_eq!(encode_varint(128).unwrap(), vec![0x80, 0x01]);
    assert_eq!(encode_varint(16_383).unwrap(), vec![0xff, 0x7f]);
    assert_eq!(encode_varint(16_384).unwrap(), vec![0x80, 0x80, 0x01]);
    assert_eq!(encode_varint(2_097_151).unwrap(), vec![0xff, 0xff, 0x7f]);
    assert_eq!(encode_varint(2_097_152).unwrap(), vec![0x80, 0x80, 0x80, 0x01]);
    assert_eq!(encode_varint(268_435_455).unwrap(), vec![0xff, 0xff, 0xff, 0x7f]);
    assert_eq!(encode_varint(268_435_456), Err(MqttWriteError::Invariant));
    assert_eq!(varint_len(127), 1);
    assert_eq!(varint_len(128), 2);
    assert_eq!(varint_len(268_435_455), 4);
}

#[test]
fn varint_with_a_fifth_byte_is_invalid() {
    assert_eq!(decode_varint(&[0xff, 0xff, 0xff, 0xff, 0x01]), Err(DecodeError::InvalidVarInt));
}

#[test]
fn varint_that_is_cut_short_is_invalid() {
    assert_eq!(decode_varint(&[]), Err(DecodeError::InvalidVarInt));
    assert_eq!(decode_varint(&[0x80]), Err(DecodeError::InvalidVarInt));
    assert_eq!(decode_varint(&[0xff, 0xff, 0xff]), Err(DecodeError::InvalidVarInt));
}

#[test]
fn varint_in_longer_form_is_accepted() {
    assert_eq!(decode_varint(&[0x80, 0x00]), Ok((0, 2)));
    assert_eq!(decode_varint(&[0x81, 0x80, 0x00, 0x55]), Ok((1, 3)));
}

#[test]
fn varint_survives_the_round_trip() {
    for value in [0u32, 1, 127, 128, 300, 16_383, 16_384, 2_097_151, 2_097_152, 268_435_455] {
        let bytes = encode_varint(value).unwrap();
        assert_eq!(bytes.len() as u32, varint_len(value));
        assert_eq!(decode_varint(&bytes), Ok((value, bytes.len())));
    }
}

#[test]
fn reads_fail_with_incomplete_on_short_input() {
    assert_eq!(Reader::new(&[]).take_u8(), Err(DecodeError::Incomplete));
    assert_eq!(Reader::new(&[1]).take_u16_be(), Err(DecodeError::Incomplete));
    assert_eq!(Reader::new(&[1, 2, 3]).take_u32_be(), Err(DecodeError::Incomplete));
    assert_eq!(Reader::new(&[0, 3, 1, 2]).take_binary(), Err(DecodeError::Incomplete));
    let mut reader = Reader::new(&[1, 2, 3]);
    assert_eq!(reader.take_u32_be(), Err(DecodeError::Incomplete));
    assert_eq!(reader.len(), 3);
}

#[test]
fn reads_take_what_they_read() {
    let input = [0x2a, 0x01, 0x02, 0x00, 0x00, 0x01, 0x00, 0x00, 0x02, 0xaa, 0xbb, 0xcc];
    let mut reader = Reader::new(&input);
    assert_eq!(reader.take_u8(), Ok(0x2a));
    assert_eq!(reader.take_u16_be(), Ok(0x0102));
    assert_eq!(reader.take_u32_be(), Ok(0x0000_0100));
    assert_eq!(reader.take_binary(), Ok(&[0xaa, 0xbb][..]));
    assert_eq!(reader.peek(0), Some(0xcc));
    assert_eq!(reader.peek(1), None);
    assert_eq!(reader.take_rest(), vec![0xcc]);
    assert!(reader.is_empty());
}

#[test]
fn string_is_read_as_text() {
    let mut reader = Reader::new(&[0x00, 0x03, b'f', b'o', b'o', 0xff]);
    let s = MqttString::parse(&mut reader).unwrap();
    assert_eq!(s.as_str(), "foo");
    assert_eq!(reader.len(), 1);
    let mut reader = Reader::new(&[0x00, 0x02, 0xc3, 0xa4]);
    assert_eq!(MqttString::parse(&mut reader).unwrap().as_str(), "\u{e4}");
}

#[test]
fn string_must_be_utf8() {
    let mut reader = Reader::new(&[0x00, 0x02, 0xc3, 0x28]);
    assert_eq!(MqttString::parse(&mut reader), Err(DecodeError::InvalidUtf8));
    assert_eq!(reader.len(), 4);
    // a surrogate, encoded
    let mut reader = Reader::new(&[0x00, 0x03, 0xed, 0xa0, 0x80]);
    assert_eq!(MqttString::parse(&mut reader), Err(DecodeError::InvalidUtf8));
}

#[test]
fn string_must_not_hold_forbidden_characters() {
    let mut reader = Reader::new(&[0x00, 0x01, 0x00]);
    assert_eq!(MqttString::parse(&mut reader), Err(DecodeError::InvalidUtf8));
    // U+FFFF
    let mut reader = Reader::new(&[0x00, 0x03, 0xef, 0xbf, 0xbf]);
    assert_eq!(MqttString::parse(&mut reader), Err(DecodeError::InvalidUtf8));
    // U+FDD0
    let mut reader = Reader::new(&[0x00, 0x03, 0xef, 0xb7, 0x90]);
    assert_eq!(MqttString::parse(&mut reader), Err(DecodeError::InvalidUtf8));
    assert_eq!(MqttString::new("a\u{0}b"), Err(MqttStringError::ForbiddenCharacter));
    assert_eq!(MqttString::new("\u{1fffe}"), Err(MqttStringError::ForbiddenCharacter));
    assert!(MqttString::new("\u{fffd}").is_ok());
}

#[test]
fn string_must_not_be_too_long() {
    let long = "a".repeat(65_536);
    assert_eq!(MqttString::new(&long), Err(MqttStringError::TooLong));
    let fits = "a".repeat(65_535);
    let s = MqttString::new(&fits).unwrap();
    assert_eq!(s.binary_size(), 65_537);
    assert_eq!(MqttBytes::new(vec![0; 65_536]), Err(MqttStringError::TooLong));
    assert_eq!(MqttBytes::new(vec![0; 65_535]).unwrap().binary_size(), 65_537);
}

#[test]
fn string_is_written_with_its_length() {
    let mut writer = VecWriter::new();
    MqttString::new("a/b").unwrap().write(&mut writer).unwrap();
    assert_eq!(writer.buffer, [0x00, 0x03, b'a', b'/', b'b']);
    let mut writer = VecWriter::new();
    MqttBytes::new(vec![9, 8]).unwrap().write(&mut writer).unwrap();
    assert_eq!(writer.buffer, [0x00, 0x02, 9, 8]);
    assert!(MqttString::new("x").unwrap().equals(&MqttString::new("x").unwrap()));
    assert!(!MqttString::new("x").unwrap().equals_str("y"));
    assert_eq!(MqttString::empty().as_str(), "");
}

#[test]
fn bounded_writer_reports_buffer_full() {
    let mut writer = BoundedWriter::new(3);
    assert_eq!(writer.write_u16(0x0102), Ok(()));
    assert_eq!(writer.write_u16(0x0304), Err(MqttWriteError::BufferFull));
    assert_eq!(writer.buffer, [0x01, 0x02, 0x03]);
    let mut writer = BoundedWriter::new(3);
    assert_eq!(writer.write_slice(&[1, 2, 3, 4]), Err(MqttWriteError::BufferFull));
    assert!(writer.buffer.is_empty());
    assert_eq!(writer.write_slice(&[1, 2, 3]), Ok(()));
    assert_eq!(writer.write_byte(4), Err(MqttWriteError::BufferFull));
}

#[test]
fn counting_writer_counts() {
    let mut writer = CountingWriter::new();
    writer.write_u32(7).unwrap();
    writer.write_slice(&[1, 2, 3]).unwrap();
    writer.write_varint(128).unwrap();
    assert_eq!(writer.count, 9);
    assert!(writer.write_varint(268_435_456).is_err());
    assert_eq!(writer.count, 9);
}

#[test]
fn a_failed_write_leaves_the_beginning_of_the_bytes() {
    let mut writer = BoundedWriter::new(1);
    assert_eq!(writer.write_u16(0x0102), Err(MqttWriteError::BufferFull));
    assert_eq!(writer.buffer, [0x01]);
    // a byte that finds no room is not appended
    assert_eq!(writer.write_byte(9), Err(MqttWriteError::BufferFull));
    assert_eq!(writer.buffer, [0x01]);

    let mut writer = BoundedWriter::new(3);
    assert_eq!(writer.write_u32(0x0a0b0c0d), Err(MqttWriteError::BufferFull));
    assert_eq!(writer.buffer, [0x0a, 0x0b, 0x0c]);

    let mut writer = BoundedWriter::new(1);
    assert_eq!(writer.write_varint(300), Err(MqttWriteError::BufferFull));
    assert_eq!(writer.buffer, [0xac]);

    let mut writer = BoundedWriter::new(4);
    assert_eq!(writer.write_binary(&[7, 8, 9]), Err(MqttWriteError::BufferFull));
    assert_eq!(writer.buffer, [0x00, 0x03]);

    let mut writer = BoundedWriter::new(4);
    assert_eq!(MqttString::new("abc").unwrap().write(&mut writer), Err(MqttWriteError::BufferFull));
    assert_eq!(writer.buffer, [0x00, 0x03]);
}
