use cloudmqtt::v3::packet::MPacket;
use cloudmqtt::wire::fixed_header::FixedHeader;
use cloudmqtt::wire::fixed_header::PacketType;
use cloudmqtt::wire::framing::frame_length;
use cloudmqtt::wire::framing::PacketBuffer;
use cloudmqtt::wire::read::DecodeError;
use cloudmqtt::wire::read::MalformedReason;
use cloudmqtt::wire::read::Reader;
use cloudmqtt::wire::write::MqttWriteError;
use cloudmqtt::wire::write::VecWriter;

#[test]
fn fixed_header_is_read_and_written() {
    let mut reader = Reader::new(&[0x30, 0x80, 0x01, 0xaa]);
    let header = FixedHeader::parse(&mut reader).unwrap();
    assert_eq!(header, FixedHeader { packet_type: PacketType::Publish, flags: 0, remaining_length: 128 });
    assert_eq!(reader.len(), 1);
    assert_eq!(header.binary_size(), 3);
    let mut writer = VecWriter::new();
    header.write(&mut writer).unwrap();
    assert_eq!(writer.buffer, vec![0x30, 0x80, 0x01]);
    let bad = FixedHeader { packet_type: PacketType::Subscribe, flags: 0, remaining_length: 0 };
    assert_eq!(bad.write(&mut writer), Err(MqttWriteError::Invariant));
    let long = FixedHeader { packet_type: PacketType::Pingreq, flags: 0, remaining_length: 268_435_456 };
    assert_eq!(long.write(&mut writer), Err(MqttWriteError::Invariant));
    assert_eq!(writer.buffer.len(), 3);
}

#[test]
fn fixed_header_flags_are_checked() {
    for (first, ok) in [
        (0x10u8, true),
        (0x11, false),
        (0x20, true),
        (0x3f, false),
        (0x3d, true),
        (0x62, true),
        (0x60, false),
        (0x82, true),
        (0x80, false),
        (0xa2, true),
        (0xc0, true),
        (0xf0, true),
        (0xf1, false),
    ] {
        let bytes = [first, 0x00];
        let parsed = FixedHeader::parse(&mut Reader::new(&bytes));
        if ok {
            assert!(parsed.is_ok());
        } else {
            assert_eq!(parsed, Err(DecodeError::InvalidFixedHeaderFlags));
        }
    }
    assert_eq!(
        FixedHeader::parse(&mut Reader::new(&[0x05, 0x00])),
        Err(DecodeError::MalformedPacket(MalformedReason::ReservedPacketType))
    );
    assert_eq!(PacketType::from_code(0), None);
    assert_eq!(PacketType::from_code(15), Some(PacketType::Auth));
    assert_eq!(PacketType::Disconnect.code(), 14);
}

#[test]
fn frame_waits_for_the_whole_packet() {
    assert_eq!(frame_length(&[], 100), Ok(None));
    assert_eq!(frame_length(&[0x30], 100), Ok(None));
    assert_eq!(frame_length(&[0x30, 0x80], 100), Ok(None));
    assert_eq!(frame_length(&[0x30, 0x03, 0x00], 100), Ok(None));
    assert_eq!(frame_length(&[0x30, 0x03, 0x00, 0x01, b'a'], 100), Ok(Some(5)));
    assert_eq!(frame_length(&[0x30, 0x03, 0x00, 0x01, b'a', 0xc0], 100), Ok(Some(5)));
    assert_eq!(frame_length(&[0xc0, 0x00], 0), Ok(Some(2)));
    assert_eq!(frame_length(&[0x30, 0x80, 0x80, 0x80, 0x80], 100), Err(DecodeError::InvalidVarInt));
    assert_eq!(frame_length(&[0x31 | 0x06, 0x00], 100), Err(DecodeError::InvalidFixedHeaderFlags));
}

#[test]
fn frame_refuses_packets_that_are_too_large() {
    assert_eq!(frame_length(&[0x30, 0x65], 100), Err(DecodeError::PacketTooLarge));
    assert_eq!(frame_length(&[0x30, 0x64], 100), Ok(None));
    let mut buffer = PacketBuffer::new(2);
    buffer.extend(&[0x30, 0x03, 0x00]);
    assert_eq!(buffer.next_packet(), Err(DecodeError::PacketTooLarge));
    assert_eq!(buffer.len(), 3);
    buffer.set_maximum(3);
    assert_eq!(buffer.next_packet(), Ok(None));
}

#[test]
fn buffer_hands_out_packets_one_by_one() {
    let mut buffer = PacketBuffer::new(1024);
    assert_eq!(buffer.next_packet(), Ok(None));
    buffer.extend(&[0x30, 0x08, 0x00, 0x03, b'a']);
    assert_eq!(buffer.next_packet(), Ok(None));
    assert_eq!(buffer.len(), 5);
    buffer.extend(&[b'/', b'b', 0x01, 0x02, 0x03, 0xc0, 0x00, 0xe0]);
    let first = buffer.next_packet().unwrap().unwrap();
    assert_eq!(first, vec![0x30, 0x08, 0x00, 0x03, b'a', b'/', b'b', 0x01, 0x02, 0x03]);
    assert!(matches!(MPacket::parse_complete(&first), Ok(MPacket::Publish(_))));
    assert_eq!(buffer.next_packet(), Ok(Some(vec![0xc0, 0x00])));
    assert_eq!(buffer.next_packet(), Ok(None));
    assert_eq!(buffer.len(), 1);
    buffer.extend(&[0x00]);
    assert_eq!(buffer.next_packet(), Ok(Some(vec![0xe0, 0x00])));
    assert_eq!(buffer.len(), 0);
}
