use cloudmqtt::v3::connect_return::MConnectReturnCode;
use cloudmqtt::v3::packet::MConnack;
use cloudmqtt::v3::packet::MConnect;
use cloudmqtt::v3::packet::MPacket;
use cloudmqtt::v3::packet::MPublish;
use cloudmqtt::v3::packet::MSuback;
use cloudmqtt::v3::packet::MSubscribe;
use cloudmqtt::v3::packet::MUnsubscribe;
use cloudmqtt::v3::qos::MQualityOfService;
use cloudmqtt::v3::subscription_acks::MSubscriptionAck;
use cloudmqtt::v3::subscription_request::MSubscriptionRequest;
use cloudmqtt::v3::subscription_request::MSubscriptionRequests;
use cloudmqtt::v3::will::MLastWill;
use cloudmqtt::wire::read::DecodeError;
use cloudmqtt::wire::read::MalformedReason;
use cloudmqtt::wire::read::ProtocolReason;
use cloudmqtt::wire::read::Reader;
use cloudmqtt::wire::strings::MqttBytes;
use cloudmqtt::wire::strings::MqttString;
use cloudmqtt::wire::write::BoundedWriter;
use cloudmqtt::wire::write::MqttWriteError;

fn text(s: &str) -> MqttString {
    MqttString::new(s).unwrap()
}

fn check_roundtrip(packet: MPacket) {
    let bytes = packet.to_bytes().unwrap();
    assert_eq!(MPacket::parse_complete(&bytes).unwrap(), packet);
    let mut with_more = bytes.clone();
    with_more.push(0xc0);
    let mut reader = Reader::new(&with_more);
    assert_eq!(MPacket::parse(&mut reader).unwrap(), packet);
    assert_eq!(reader.len(), 1);
}

#[test]
fn publish_at_qos_0_has_exact_bytes() {
    let packet = MPacket::Publish(MPublish {
        dup: false,
        qos: MQualityOfService::AtMostOnce,
        retain: false,
        topic_name: text("a/b"),
        id: None,
        payload: vec![0x01, 0x02, 0x03],
    });
    let bytes = packet.to_bytes().unwrap();
    assert_eq!(bytes, vec![0x30, 0x08, 0x00, 0x03, b'a', b'/', b'b', 0x01, 0x02, 0x03]);
    assert_eq!(MPacket::parse_complete(&bytes).unwrap(), packet);
}

#[test]
fn publish_at_qos_1_carries_its_identifier() {
    let packet = MPacket::Publish(MPublish {
        dup: true,
        qos: MQualityOfService::AtLeastOnce,
        retain: true,
        topic_name: text("t"),
        id: Some(0x0102),
        payload: vec![],
    });
    let bytes = packet.to_bytes().unwrap();
    assert_eq!(bytes, vec![0x3b, 0x05, 0x00, 0x01, b't', 0x01, 0x02]);
    check_roundtrip(packet);
}

#[test]
fn publish_is_checked() {
    assert_eq!(
        MPacket::parse_complete(&[0x32, 0x05, 0x00, 0x01, b't', 0x00, 0x00]),
        Err(DecodeError::ProtocolError(ProtocolReason::ZeroPacketIdentifier))
    );
    assert_eq!(
        MPacket::parse_complete(&[0x30, 0x03, 0x00, 0x01, b'#']),
        Err(DecodeError::ProtocolError(ProtocolReason::WildcardInTopicName))
    );
    assert_eq!(
        MPacket::parse_complete(&[0x36, 0x03, 0x00, 0x01, b't']),
        Err(DecodeError::InvalidFixedHeaderFlags)
    );
    assert_eq!(
        MPacket::parse_complete(&[0x32, 0x04, 0x00, 0x01, b't', 0x01]),
        Err(DecodeError::MalformedPacket(MalformedReason::TruncatedField))
    );
    let without_id = MPacket::Publish(MPublish {
        dup: false,
        qos: MQualityOfService::AtLeastOnce,
        retain: false,
        topic_name: text("t"),
        id: None,
        payload: vec![],
    });
    assert_eq!(without_id.to_bytes(), Err(MqttWriteError::Invariant));
    let wildcard = MPacket::Publish(MPublish {
        dup: false,
        qos: MQualityOfService::AtMostOnce,
        retain: false,
        topic_name: text("a/+"),
        id: None,
        payload: vec![],
    });
    assert_eq!(wildcard.to_bytes(), Err(MqttWriteError::Invariant));
}

#[test]
fn connect_survives_the_round_trip() {
    let minimal = MPacket::Connect(MConnect {
        protocol_name: text("MQTT"),
        protocol_level: 4,
        clean_session: true,
        will: None,
        username: None,
        password: None,
        keep_alive: 60,
        client_id: text("a"),
    });
    assert_eq!(
        minimal.to_bytes().unwrap(),
        vec![0x10, 0x0d, 0x00, 0x04, b'M', b'Q', b'T', b'T', 0x04, 0x02, 0x00, 0x3c, 0x00, 0x01, b'a']
    );
    check_roundtrip(minimal);
    check_roundtrip(MPacket::Connect(MConnect {
        protocol_name: text("MQTT"),
        protocol_level: 4,
        clean_session: false,
        will: Some(MLastWill {
            topic: text("w"),
            payload: MqttBytes::new(b"bye".to_vec()).unwrap(),
            qos: MQualityOfService::ExactlyOnce,
            retain: true,
        }),
        username: Some(text("user")),
        password: Some(MqttBytes::new(vec![1, 2]).unwrap()),
        keep_alive: 0,
        client_id: text("c1"),
    }));
}

#[test]
fn connect_is_checked() {
    let good =
        vec![0x10, 0x0d, 0x00, 0x04, b'M', b'Q', b'T', b'T', 0x04, 0x02, 0x00, 0x3c, 0x00, 0x01, b'a'];
    assert!(MPacket::parse_complete(&good).is_ok());
    let mut name = good.clone();
    name[7] = b'X';
    assert_eq!(
        MPacket::parse_complete(&name),
        Err(DecodeError::MalformedPacket(MalformedReason::UnsupportedProtocol))
    );
    let mut password_only = good.clone();
    password_only[9] = 0x42;
    assert_eq!(
        MPacket::parse_complete(&password_only),
        Err(DecodeError::ProtocolError(ProtocolReason::InconsistentConnectFlags))
    );
    let mut will_qos = good.clone();
    will_qos[9] = 0x1e;
    assert_eq!(
        MPacket::parse_complete(&will_qos),
        Err(DecodeError::MalformedPacket(MalformedReason::InvalidValue))
    );
    let mut longer = good.clone();
    longer[1] = 0x0e;
    longer.push(0x00);
    assert_eq!(
        MPacket::parse_complete(&longer),
        Err(DecodeError::MalformedPacket(MalformedReason::TrailingBytes))
    );
    let without_name = MPacket::Connect(MConnect {
        protocol_name: text("MQIsdp"),
        protocol_level: 3,
        clean_session: true,
        will: None,
        username: None,
        password: None,
        keep_alive: 60,
        client_id: text("a"),
    });
    assert_eq!(without_name.to_bytes(), Err(MqttWriteError::Invariant));
}

#[test]
fn connack_has_exact_bytes() {
    let packet = MPacket::Connack(MConnack {
        session_present: true,
        connect_return_code: MConnectReturnCode::BadUsernamePassword,
    });
    assert_eq!(packet.to_bytes().unwrap(), vec![0x20, 0x02, 0x01, 0x04]);
    check_roundtrip(packet);
    assert_eq!(
        MPacket::parse_complete(&[0x20, 0x02, 0x02, 0x00]),
        Err(DecodeError::MalformedPacket(MalformedReason::ReservedBitsSet))
    );
    assert_eq!(
        MPacket::parse_complete(&[0x20, 0x02, 0x00, 0x06]),
        Err(DecodeError::MalformedPacket(MalformedReason::InvalidValue))
    );
    assert_eq!(
        MPacket::parse_complete(&[0x20, 0x01, 0x00]),
        Err(DecodeError::MalformedPacket(MalformedReason::TruncatedField))
    );
}

#[test]
fn subscribe_and_suback_survive_the_round_trip() {
    let subscribe = MPacket::Subscribe(MSubscribe {
        id: 7,
        subscriptions: MSubscriptionRequests {
            requests: vec![
                MSubscriptionRequest { topic: text("sport/+"), qos: MQualityOfService::AtLeastOnce },
                MSubscriptionRequest { topic: text("#"), qos: MQualityOfService::AtMostOnce },
            ],
        },
    });
    assert_eq!(
        subscribe.to_bytes().unwrap(),
        vec![
            0x82, 0x10, 0x00, 0x07, 0x00, 0x07, b's', b'p', b'o', b'r', b't', b'/', b'+', 0x01, 0x00,
            0x01, b'#', 0x00
        ]
    );
    check_roundtrip(subscribe);
    let suback = MPacket::Suback(MSuback {
        id: 7,
        subscription_acks: vec![
            MSubscriptionAck::MaximumQualityAtLeastOnce,
            MSubscriptionAck::Failure,
        ],
    });
    assert_eq!(suback.to_bytes().unwrap(), vec![0x90, 0x04, 0x00, 0x07, 0x01, 0x80]);
    check_roundtrip(suback);
    check_roundtrip(MPacket::Unsubscribe(MUnsubscribe {
        id: 9,
        unsubscriptions: vec![text("a"), text("b/c")],
    }));
}

#[test]
fn subscribe_is_checked() {
    assert_eq!(
        MPacket::parse_complete(&[0x82, 0x02, 0x00, 0x07]),
        Err(DecodeError::ProtocolError(ProtocolReason::EmptyPayload))
    );
    assert_eq!(
        MPacket::parse_complete(&[0x82, 0x06, 0x00, 0x07, 0x00, 0x01, b'a', 0x03]),
        Err(DecodeError::MalformedPacket(MalformedReason::InvalidValue))
    );
    assert_eq!(
        MPacket::parse_complete(&[0x80, 0x06, 0x00, 0x07, 0x00, 0x01, b'a', 0x00]),
        Err(DecodeError::InvalidFixedHeaderFlags)
    );
    assert_eq!(
        MPacket::parse_complete(&[0x90, 0x03, 0x00, 0x07, 0x03]),
        Err(DecodeError::MalformedPacket(MalformedReason::InvalidValue))
    );
    let empty = MPacket::Subscribe(MSubscribe {
        id: 7,
        subscriptions: MSubscriptionRequests { requests: vec![] },
    });
    assert_eq!(empty.to_bytes(), Err(MqttWriteError::Invariant));
}

#[test]
fn small_packets_have_exact_bytes() {
    assert_eq!(MPacket::Puback { id: 0x1234 }.to_bytes().unwrap(), vec![0x40, 0x02, 0x12, 0x34]);
    assert_eq!(MPacket::Pubrec { id: 1 }.to_bytes().unwrap(), vec![0x50, 0x02, 0x00, 0x01]);
    assert_eq!(MPacket::Pubrel { id: 1 }.to_bytes().unwrap(), vec![0x62, 0x02, 0x00, 0x01]);
    assert_eq!(MPacket::Pubcomp { id: 1 }.to_bytes().unwrap(), vec![0x70, 0x02, 0x00, 0x01]);
    assert_eq!(MPacket::Unsuback { id: 1 }.to_bytes().unwrap(), vec![0xb0, 0x02, 0x00, 0x01]);
    assert_eq!(MPacket::Pingreq.to_bytes().unwrap(), vec![0xc0, 0x00]);
    assert_eq!(MPacket::Pingresp.to_bytes().unwrap(), vec![0xd0, 0x00]);
    assert_eq!(MPacket::Disconnect.to_bytes().unwrap(), vec![0xe0, 0x00]);
    for packet in [
        MPacket::Puback { id: 0x1234 },
        MPacket::Pubrec { id: 1 },
        MPacket::Pubrel { id: 1 },
        MPacket::Pubcomp { id: 1 },
        MPacket::Unsuback { id: 1 },
        MPacket::Pingreq,
        MPacket::Pingresp,
        MPacket::Disconnect,
    ] {
        check_roundtrip(packet);
    }
    assert_eq!(
        MPacket::parse_complete(&[0xf0, 0x00]),
        Err(DecodeError::MalformedPacket(MalformedReason::UnknownPacketType))
    );
    assert_eq!(
        MPacket::parse_complete(&[0xc0, 0x01, 0x00]),
        Err(DecodeError::MalformedPacket(MalformedReason::TrailingBytes))
    );
}

#[test]
fn encoding_of_decoded_bytes_gives_the_bytes_back() {
    let inputs: Vec<Vec<u8>> = vec![
        vec![0x30, 0x08, 0x00, 0x03, b'a', b'/', b'b', 0x01, 0x02, 0x03],
        vec![0x10, 0x0d, 0x00, 0x04, b'M', b'Q', b'T', b'T', 0x04, 0x02, 0x00, 0x3c, 0x00, 0x01, b'a'],
        vec![0x82, 0x06, 0x00, 0x07, 0x00, 0x01, b'a', 0x02],
        vec![0x90, 0x03, 0x00, 0x07, 0x80],
        vec![0xe0, 0x00],
    ];
    for input in inputs {
        let packet = MPacket::parse_complete(&input).unwrap();
        assert_eq!(packet.to_bytes().unwrap(), input);
    }
    // a length in longer form decodes, and is written in shortest form
    let packet = MPacket::parse_complete(&[0xe0, 0x80, 0x00]).unwrap();
    assert_eq!(packet.to_bytes().unwrap(), vec![0xe0, 0x00]);
}

#[test]
fn full_sink_stops_the_writing() {
    let packet = MPacket::Puback { id: 1 };
    let mut writer = BoundedWriter::new(3);
    assert_eq!(packet.write(&mut writer), Err(MqttWriteError::BufferFull));
    let mut writer = BoundedWriter::new(4);
    assert_eq!(packet.write(&mut writer), Ok(()));
    assert_eq!(writer.buffer, vec![0x40, 0x02, 0x00, 0x01]);
    assert_eq!(packet.body_size(), Some(2));
}
