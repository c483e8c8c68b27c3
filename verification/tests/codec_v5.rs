use cloudmqtt::v5::packets::MqttPacket;
use cloudmqtt::v5::packets::auth::MAuth;
use cloudmqtt::v5::packets::connack::MConnack;
use cloudmqtt::v5::packets::connect::MConnect;
use cloudmqtt::v5::packets::connect::Will;
use cloudmqtt::v5::packets::disconnect::MDisconnect;
use cloudmqtt::v5::packets::pingreq::MPingreq;
use cloudmqtt::v5::packets::pingresp::MPingresp;
use cloudmqtt::v5::packets::puback::MPuback;
use cloudmqtt::v5::packets::pubcomp::MPubcomp;
use cloudmqtt::v5::packets::publish::MPublish;
use cloudmqtt::v5::packets::pubrec::MPubrec;
use cloudmqtt::v5::packets::pubrel::MPubrel;
use cloudmqtt::v5::packets::suback::MSuback;
use cloudmqtt::v5::packets::subscribe::MSubscribe;
use cloudmqtt::v5::packets::subscribe::RetainHandling;
use cloudmqtt::v5::packets::subscribe::Subscription;
use cloudmqtt::v5::packets::subscribe::SubscriptionOptions;
use cloudmqtt::v5::packets::unsuback::MUnsuback;
use cloudmqtt::v5::packets::unsubscribe::MUnsubscribe;
use cloudmqtt::v5::properties::Properties;
use cloudmqtt::v5::properties::Property;
use cloudmqtt::v5::properties::PropertyContext;
use cloudmqtt::v5::properties::PropertyId;
use cloudmqtt::v5::properties::PropertyValue;
use cloudmqtt::v5::qos::QualityOfService;
use cloudmqtt::wire::read::DecodeError;
use cloudmqtt::wire::read::MalformedReason;
use cloudmqtt::wire::read::ProtocolReason;
use cloudmqtt::wire::read::Reader;
use cloudmqtt::v5::reason_code::AuthReasonCode;
use cloudmqtt::v5::reason_code::ConnackReasonCode;
use cloudmqtt::v5::reason_code::DisconnectReasonCode;
use cloudmqtt::v5::reason_code::PubackReasonCode;
use cloudmqtt::v5::reason_code::PubcompReasonCode;
use cloudmqtt::v5::reason_code::PubrecReasonCode;
use cloudmqtt::v5::reason_code::PubrelReasonCode;
use cloudmqtt::v5::reason_code::SubackReasonCode;
use cloudmqtt::v5::reason_code::UnsubackReasonCode;
use cloudmqtt::wire::strings::MqttBytes;
use cloudmqtt::wire::strings::MqttString;
use cloudmqtt::v5::variable_header::PacketIdentifier;
use cloudmqtt::wire::write::MqttWriteError;
use cloudmqtt::wire::write::VecWriter;

fn text(s: &str) -> MqttString {
    MqttString::new(s).unwrap()
}

fn string_property(id: PropertyId, s: &str) -> Property {
    Property { id, value: PropertyValue::Utf8String(text(s)) }
}

fn user_property(key: &str, value: &str) -> Property {
    Property { id: PropertyId::UserProperty, value: PropertyValue::Utf8StringPair(text(key), text(value)) }
}

fn roundtrip_disconnect(instance: MDisconnect) {
    let mut writer = VecWriter { buffer: Vec::new() };
    instance.write(&mut writer).unwrap();
    let output = MDisconnect::parse(&mut Reader::new(&writer.buffer)).unwrap();
    assert_eq!(instance, output);
}

fn roundtrip_pubrel(instance: MPubrel) {
    let mut writer = VecWriter { buffer: Vec::new() };
    instance.write(&mut writer).unwrap();
    let output = MPubrel::parse(&mut Reader::new(&writer.buffer)).unwrap();
    assert_eq!(instance, output);
}

#[test]
fn test_roundtrip_disconnect_no_props() {
    roundtrip_disconnect(MDisconnect {
        reason_code: DisconnectReasonCode::NormalDisconnection,
        properties: Properties::new(),
    });
}

#[test]
fn test_roundtrip_disconnect_with_props() {
    roundtrip_disconnect(MDisconnect {
        reason_code: DisconnectReasonCode::NormalDisconnection,
        properties: Properties {
            entries: vec![
                Property {
                    id: PropertyId::SessionExpiryInterval,
                    value: PropertyValue::FourByteInteger(123),
                },
                string_property(PropertyId::ReasonString, "foo"),
                user_property("f", "hj"),
                string_property(PropertyId::ServerReference, "barbarbar"),
            ],
        },
    });
}

#[test]
fn test_short_disconnect_packet() {
    let buf = [0xe0, 0x00];
    let parsed = MqttPacket::parse_complete(&buf).unwrap();
    let reference = MqttPacket::Disconnect(MDisconnect {
        reason_code: DisconnectReasonCode::NormalDisconnection,
        properties: Properties::new(),
    });

    assert_eq!(parsed, reference);
}

#[test]
fn short_disconnect_is_written_as_it_was_read() {
    let buf = [0xe0, 0x00];
    let parsed = MqttPacket::parse_complete(&buf).unwrap();
    assert_eq!(parsed.to_bytes().unwrap(), vec![0xe0, 0x00]);
}

#[test]
fn disconnect_with_reason_and_properties_has_exact_bytes() {
    let packet = MqttPacket::Disconnect(MDisconnect {
        reason_code: DisconnectReasonCode::SessionTakenOver,
        properties: Properties { entries: vec![string_property(PropertyId::ReasonString, "x")] },
    });
    let bytes = packet.to_bytes().unwrap();
    assert_eq!(bytes, vec![0xe0, 0x06, 0x8e, 0x04, 0x1f, 0x00, 0x01, b'x']);
    assert_eq!(MqttPacket::parse_complete(&bytes).unwrap(), packet);
}

#[test]
fn disconnect_with_reason_only_is_read() {
    let parsed = MqttPacket::parse_complete(&[0xe0, 0x01, 0x8d]).unwrap();
    assert_eq!(
        parsed,
        MqttPacket::Disconnect(MDisconnect {
            reason_code: DisconnectReasonCode::KeepAliveTimeout,
            properties: Properties::new(),
        })
    );
}

#[test]
fn disconnect_binary_size_counts_the_body() {
    let short = MDisconnect {
        reason_code: DisconnectReasonCode::NormalDisconnection,
        properties: Properties::new(),
    };
    assert_eq!(short.binary_size(), 0);
    let long = MDisconnect {
        reason_code: DisconnectReasonCode::ServerBusy,
        properties: Properties { entries: vec![string_property(PropertyId::ReasonString, "foo")] },
    };
    assert_eq!(long.binary_size(), 1 + 1 + 1 + 2 + 3);
}

#[test]
fn test_roundtrip_mauth_no_props() {
    roundtrip_pubrel(MPubrel {
        packet_identifier: PacketIdentifier(13),
        reason: PubrelReasonCode::Success,
        properties: Properties::new(),
    });
}

#[test]
fn test_roundtrip_mauth_props() {
    roundtrip_pubrel(MPubrel {
        packet_identifier: PacketIdentifier(13),
        reason: PubrelReasonCode::Success,
        properties: Properties {
            entries: vec![
                string_property(PropertyId::ReasonString, "fooobasrbbarbabwer"),
                user_property("f", "hj"),
            ],
        },
    });
}

#[test]
fn pubrel_binary_size_counts_the_body() {
    let short = MPubrel {
        packet_identifier: PacketIdentifier(13),
        reason: PubrelReasonCode::Success,
        properties: Properties::new(),
    };
    assert_eq!(short.binary_size(), 2);
    let long = MPubrel {
        packet_identifier: PacketIdentifier(13),
        reason: PubrelReasonCode::PacketIdentifierNotFound,
        properties: Properties::new(),
    };
    assert_eq!(long.binary_size(), 4);
}

#[test]
fn pubrel_packet_has_exact_bytes() {
    let packet = MqttPacket::Pubrel(MPubrel {
        packet_identifier: PacketIdentifier(13),
        reason: PubrelReasonCode::Success,
        properties: Properties::new(),
    });
    assert_eq!(packet.to_bytes().unwrap(), vec![0x62, 0x02, 0x00, 0x0d]);
    let other = MqttPacket::Pubrel(MPubrel {
        packet_identifier: PacketIdentifier(13),
        reason: PubrelReasonCode::PacketIdentifierNotFound,
        properties: Properties::new(),
    });
    assert_eq!(other.to_bytes().unwrap(), vec![0x62, 0x04, 0x00, 0x0d, 0x92, 0x00]);
}

#[test]
fn pubrel_needs_its_flags() {
    assert_eq!(
        MqttPacket::parse_complete(&[0x60, 0x02, 0x00, 0x0d]),
        Err(DecodeError::InvalidFixedHeaderFlags)
    );
}

#[test]
fn pingresp_body_must_be_empty() {
    assert!(MPingresp::parse(&mut Reader::new(&[])).is_ok());
    assert_eq!(
        MPingresp::parse(&mut Reader::new(&[0x00])),
        Err(DecodeError::MalformedPacket(MalformedReason::TrailingBytes))
    );
    assert_eq!(
        MqttPacket::parse_complete(&[0xd0, 0x00]).unwrap(),
        MqttPacket::Pingresp(MPingresp)
    );
}

#[test]
fn minimal_connect_has_exact_bytes() {
    let packet = MqttPacket::Connect(MConnect {
        client_identifier: text("a"),
        username: None,
        password: None,
        clean_start: true,
        will: None,
        properties: Properties::new(),
        keep_alive: 60,
    });
    let bytes = packet.to_bytes().unwrap();
    assert_eq!(
        bytes,
        vec![
            0x10, 0x0e, 0x00, 0x04, b'M', b'Q', b'T', b'T', 0x05, 0x02, 0x00, 0x3c, 0x00, 0x00, 0x01,
            b'a'
        ]
    );
    assert_eq!(MqttPacket::parse_complete(&bytes).unwrap(), packet);
}

#[test]
fn full_connect_survives_the_round_trip() {
    let packet = MqttPacket::Connect(MConnect {
        client_identifier: text("client"),
        username: Some(text("user")),
        password: Some(MqttBytes::new(vec![1, 2, 3]).unwrap()),
        clean_start: false,
        will: Some(Will {
            properties: Properties {
                entries: vec![Property {
                    id: PropertyId::WillDelayInterval,
                    value: PropertyValue::FourByteInteger(5),
                }],
            },
            topic: text("w"),
            payload: MqttBytes::new(b"bye".to_vec()).unwrap(),
            will_qos: QualityOfService::AtLeastOnce,
            will_retain: true,
        }),
        properties: Properties {
            entries: vec![
                Property { id: PropertyId::ReceiveMaximum, value: PropertyValue::TwoByteInteger(10) },
                user_property("k", "v"),
                user_property("k", "w"),
            ],
        },
        keep_alive: 30,
    });
    let bytes = packet.to_bytes().unwrap();
    assert_eq!(bytes[0], 0x10);
    // user name, password, will retain, will at QoS 1, will, no clean start
    assert_eq!(bytes[9], 0b1110_1100);
    assert_eq!(MqttPacket::parse_complete(&bytes).unwrap(), packet);
}

#[test]
fn connect_flags_are_checked() {
    let good = vec![
        0x10, 0x0e, 0x00, 0x04, b'M', b'Q', b'T', b'T', 0x05, 0x02, 0x00, 0x3c, 0x00, 0x00, 0x01, b'a',
    ];
    let mut reserved = good.clone();
    reserved[9] = 0x03;
    assert_eq!(
        MqttPacket::parse_complete(&reserved),
        Err(DecodeError::MalformedPacket(MalformedReason::ReservedBitsSet))
    );
    let mut will_qos_without_will = good.clone();
    will_qos_without_will[9] = 0x0a;
    assert_eq!(
        MqttPacket::parse_complete(&will_qos_without_will),
        Err(DecodeError::ProtocolError(ProtocolReason::InconsistentConnectFlags))
    );
    let mut level = good.clone();
    level[8] = 0x04;
    assert_eq!(
        MqttPacket::parse_complete(&level),
        Err(DecodeError::MalformedPacket(MalformedReason::UnsupportedProtocol))
    );
}

#[test]
fn connack_survives_the_round_trip() {
    let packet = MqttPacket::Connack(MConnack {
        session_present: true,
        reason_code: ConnackReasonCode::Success,
        properties: Properties {
            entries: vec![
                string_property(PropertyId::AssignedClientIdentifier, "srv-1"),
                Property { id: PropertyId::MaximumQoS, value: PropertyValue::Byte(1) },
            ],
        },
    });
    let bytes = packet.to_bytes().unwrap();
    assert_eq!(&bytes[..4], &[0x20, 0x0d, 0x01, 0x00]);
    assert_eq!(MqttPacket::parse_complete(&bytes).unwrap(), packet);
    assert_eq!(
        MqttPacket::parse_complete(&[0x20, 0x03, 0x02, 0x00, 0x00]),
        Err(DecodeError::MalformedPacket(MalformedReason::ReservedBitsSet))
    );
    assert_eq!(
        MqttPacket::parse_complete(&[0x20, 0x03, 0x00, 0x01, 0x00]),
        Err(DecodeError::MalformedPacket(MalformedReason::UnknownReasonCode))
    );
}

#[test]
fn duplicate_property_is_a_protocol_error() {
    // reason, block of two reason strings
    let body = [0x00, 0x08, 0x1f, 0x00, 0x01, b'a', 0x1f, 0x00, 0x01, b'b'];
    assert_eq!(
        MDisconnect::parse(&mut Reader::new(&body)),
        Err(DecodeError::ProtocolError(ProtocolReason::DuplicateProperty))
    );
}

#[test]
fn user_properties_may_repeat_and_keep_their_order() {
    let body = [
        0x00, 0x0e, 0x26, 0x00, 0x01, b'k', 0x00, 0x01, b'1', 0x26, 0x00, 0x01, b'k', 0x00, 0x01, b'2',
    ];
    let parsed = MDisconnect::parse(&mut Reader::new(&body)).unwrap();
    assert_eq!(
        parsed.properties.entries,
        vec![user_property("k", "1"), user_property("k", "2")]
    );
}

#[test]
fn property_of_another_packet_is_a_protocol_error() {
    // a topic alias has no place in a DISCONNECT
    let body = [0x00, 0x03, 0x23, 0x00, 0x01];
    assert_eq!(
        MDisconnect::parse(&mut Reader::new(&body)),
        Err(DecodeError::ProtocolError(ProtocolReason::PropertyNotAllowed))
    );
}

#[test]
fn unknown_property_is_malformed() {
    let body = [0x00, 0x02, 0x7f, 0x00];
    assert_eq!(
        MDisconnect::parse(&mut Reader::new(&body)),
        Err(DecodeError::MalformedPacket(MalformedReason::UnknownProperty))
    );
}

#[test]
fn subscription_identifier_must_not_be_zero() {
    let mut input = Reader::new(&[0x02, 0x0b, 0x00]);
    assert_eq!(
        Properties::parse(&mut input, PropertyContext::Subscribe),
        Err(DecodeError::ProtocolError(ProtocolReason::ZeroSubscriptionIdentifier))
    );
    let mut input = Reader::new(&[0x02, 0x0b, 0x01]);
    let parsed = Properties::parse(&mut input, PropertyContext::Subscribe).unwrap();
    assert_eq!(
        parsed.entries,
        vec![Property {
            id: PropertyId::SubscriptionIdentifier,
            value: PropertyValue::VariableByteInteger(1)
        }]
    );
}

#[test]
fn property_block_that_runs_past_the_packet_is_truncated() {
    // the block announces a string of five bytes and holds two
    let body = [0x00, 0x05, 0x1f, 0x00, 0x05, b'a', b'b'];
    assert_eq!(
        MDisconnect::parse(&mut Reader::new(&body)),
        Err(DecodeError::MalformedPacket(MalformedReason::TruncatedField))
    );
    // the length of the block reaches past the input
    let mut input = Reader::new(&[0x05, 0x1f]);
    assert_eq!(
        Properties::parse(&mut input, PropertyContext::Disconnect),
        Err(DecodeError::Incomplete)
    );
}

#[test]
fn packet_that_is_not_well_formed_is_not_written() {
    let packet = MqttPacket::Disconnect(MDisconnect {
        reason_code: DisconnectReasonCode::NormalDisconnection,
        properties: Properties {
            entries: vec![Property { id: PropertyId::TopicAlias, value: PropertyValue::TwoByteInteger(1) }],
        },
    });
    assert_eq!(packet.to_bytes(), Err(MqttWriteError::Invariant));
    let mistyped = MqttPacket::Disconnect(MDisconnect {
        reason_code: DisconnectReasonCode::NormalDisconnection,
        properties: Properties {
            entries: vec![Property { id: PropertyId::ReasonString, value: PropertyValue::Byte(1) }],
        },
    });
    assert_eq!(mistyped.to_bytes(), Err(MqttWriteError::Invariant));
}

#[test]
fn input_that_stops_early_is_incomplete() {
    assert_eq!(MqttPacket::parse_complete(&[]), Err(DecodeError::Incomplete));
    assert_eq!(MqttPacket::parse_complete(&[0xe0]), Err(DecodeError::Incomplete));
    assert_eq!(MqttPacket::parse_complete(&[0xe0, 0x80]), Err(DecodeError::Incomplete));
    assert_eq!(MqttPacket::parse_complete(&[0xe0, 0x02, 0x00]), Err(DecodeError::Incomplete));
    assert_eq!(
        MqttPacket::parse_complete(&[0xe0, 0xff, 0xff, 0xff, 0xff, 0x01]),
        Err(DecodeError::InvalidVarInt)
    );
    assert_eq!(
        MqttPacket::parse_complete(&[0x00, 0x00]),
        Err(DecodeError::MalformedPacket(MalformedReason::ReservedPacketType))
    );
    assert_eq!(
        MqttPacket::parse_complete(&[0xe0, 0x00, 0x00]),
        Err(DecodeError::MalformedPacket(MalformedReason::TrailingBytes))
    );
}

#[test]
fn publish_survives_the_round_trip() {
    let packet = MqttPacket::Publish(MPublish {
        duplicate: false,
        quality_of_service: QualityOfService::AtMostOnce,
        retain: false,
        topic_name: text("a/b"),
        packet_identifier: None,
        properties: Properties::new(),
        payload: vec![0x01, 0x02, 0x03],
    });
    let bytes = packet.to_bytes().unwrap();
    assert_eq!(bytes, vec![0x30, 0x09, 0x00, 0x03, b'a', b'/', b'b', 0x00, 0x01, 0x02, 0x03]);
    assert_eq!(MqttPacket::parse_complete(&bytes).unwrap(), packet);
    let acknowledged = MqttPacket::Publish(MPublish {
        duplicate: true,
        quality_of_service: QualityOfService::ExactlyOnce,
        retain: true,
        topic_name: text("t"),
        packet_identifier: Some(PacketIdentifier(7)),
        properties: Properties {
            entries: vec![Property { id: PropertyId::TopicAlias, value: PropertyValue::TwoByteInteger(3) }],
        },
        payload: vec![],
    });
    let bytes = acknowledged.to_bytes().unwrap();
    assert_eq!(bytes, vec![0x3d, 0x09, 0x00, 0x01, b't', 0x00, 0x07, 0x03, 0x23, 0x00, 0x03]);
    assert_eq!(MqttPacket::parse_complete(&bytes).unwrap(), acknowledged);
    assert_eq!(
        MqttPacket::parse_complete(&[0x32, 0x06, 0x00, 0x01, b't', 0x00, 0x00, 0x00]),
        Err(DecodeError::ProtocolError(ProtocolReason::ZeroPacketIdentifier))
    );
    assert_eq!(
        MqttPacket::parse_complete(&[0x30, 0x04, 0x00, 0x01, b'+', 0x00]),
        Err(DecodeError::ProtocolError(ProtocolReason::WildcardInTopicName))
    );
}

#[test]
fn subscribe_and_its_answers_survive_the_round_trip() {
    let options = SubscriptionOptions {
        quality_of_service: QualityOfService::AtLeastOnce,
        no_local: true,
        retain_as_published: false,
        retain_handling: RetainHandling::DoNotSendRetainedMessages,
    };
    assert_eq!(options.to_byte(), 0b0010_0101);
    assert_eq!(SubscriptionOptions::from_byte(0b0010_0101), Some(options));
    assert_eq!(SubscriptionOptions::from_byte(0b0100_0000), None);
    assert_eq!(SubscriptionOptions::from_byte(0b0011_0000), None);
    assert_eq!(SubscriptionOptions::from_byte(0b0000_0011), None);
    let subscribe = MqttPacket::Subscribe(MSubscribe {
        packet_identifier: PacketIdentifier(1),
        properties: Properties::new(),
        subscriptions: vec![Subscription { topic_filter: text("sport/+"), options }],
    });
    let bytes = subscribe.to_bytes().unwrap();
    assert_eq!(
        bytes,
        vec![0x82, 0x0d, 0x00, 0x01, 0x00, 0x00, 0x07, b's', b'p', b'o', b'r', b't', b'/', b'+', 0x25]
    );
    assert_eq!(MqttPacket::parse_complete(&bytes).unwrap(), subscribe);
    assert_eq!(
        MqttPacket::parse_complete(&[0x82, 0x03, 0x00, 0x01, 0x00]),
        Err(DecodeError::ProtocolError(ProtocolReason::EmptyPayload))
    );
    assert_eq!(
        MqttPacket::parse_complete(&[0x82, 0x07, 0x00, 0x01, 0x00, 0x00, 0x01, b'a', 0x40]),
        Err(DecodeError::MalformedPacket(MalformedReason::ReservedBitsSet))
    );
    let suback = MqttPacket::Suback(MSuback {
        packet_identifier: PacketIdentifier(1),
        properties: Properties::new(),
        reasons: vec![SubackReasonCode::GrantedQoS1, SubackReasonCode::NotAuthorized],
    });
    let bytes = suback.to_bytes().unwrap();
    assert_eq!(bytes, vec![0x90, 0x05, 0x00, 0x01, 0x00, 0x01, 0x87]);
    assert_eq!(MqttPacket::parse_complete(&bytes).unwrap(), suback);
    let unsubscribe = MqttPacket::Unsubscribe(MUnsubscribe {
        packet_identifier: PacketIdentifier(2),
        properties: Properties { entries: vec![user_property("a", "b")] },
        unsubscriptions: vec![text("x"), text("y/z")],
    });
    let bytes = unsubscribe.to_bytes().unwrap();
    assert_eq!(bytes[0], 0xa2);
    assert_eq!(MqttPacket::parse_complete(&bytes).unwrap(), unsubscribe);
    let unsuback = MqttPacket::Unsuback(MUnsuback {
        packet_identifier: PacketIdentifier(2),
        properties: Properties::new(),
        reasons: vec![UnsubackReasonCode::Success, UnsubackReasonCode::NoSubscriptionExisted],
    });
    let bytes = unsuback.to_bytes().unwrap();
    assert_eq!(bytes, vec![0xb0, 0x05, 0x00, 0x02, 0x00, 0x00, 0x11]);
    assert_eq!(MqttPacket::parse_complete(&bytes).unwrap(), unsuback);
    assert_eq!(
        MqttPacket::parse_complete(&[0xb0, 0x04, 0x00, 0x02, 0x00, 0x01]),
        Err(DecodeError::MalformedPacket(MalformedReason::UnknownReasonCode))
    );
}

#[test]
fn acknowledgements_and_auth_survive_the_round_trip() {
    let packets = vec![
        (
            MqttPacket::Puback(MPuback {
                packet_identifier: PacketIdentifier(5),
                reason: PubackReasonCode::NoMatchingSubscribers,
                properties: Properties::new(),
            }),
            vec![0x40, 0x04, 0x00, 0x05, 0x10, 0x00],
        ),
        (
            MqttPacket::Pubrec(MPubrec {
                packet_identifier: PacketIdentifier(5),
                reason: PubrecReasonCode::Success,
                properties: Properties::new(),
            }),
            vec![0x50, 0x02, 0x00, 0x05],
        ),
        (
            MqttPacket::Pubcomp(MPubcomp {
                packet_identifier: PacketIdentifier(5),
                reason: PubcompReasonCode::Success,
                properties: Properties { entries: vec![string_property(PropertyId::ReasonString, "r")] },
            }),
            vec![0x70, 0x08, 0x00, 0x05, 0x00, 0x04, 0x1f, 0x00, 0x01, b'r'],
        ),
        (
            MqttPacket::Auth(MAuth { reason: AuthReasonCode::Success, properties: Properties::new() }),
            vec![0xf0, 0x00],
        ),
        (
            MqttPacket::Auth(MAuth {
                reason: AuthReasonCode::ContinueAuthentication,
                properties: Properties::new(),
            }),
            vec![0xf0, 0x02, 0x18, 0x00],
        ),
        (MqttPacket::Pingreq(MPingreq), vec![0xc0, 0x00]),
    ];
    for (packet, bytes) in packets {
        assert_eq!(packet.to_bytes().unwrap(), bytes);
        assert_eq!(MqttPacket::parse_complete(&bytes).unwrap(), packet);
        assert_eq!(packet.body_size(), Some(bytes.len() as u32 - 2));
    }
    // the longer forms decode to the same packets
    assert_eq!(
        MqttPacket::parse_complete(&[0x50, 0x03, 0x00, 0x05, 0x00]).unwrap(),
        MqttPacket::parse_complete(&[0x50, 0x02, 0x00, 0x05]).unwrap()
    );
    assert_eq!(
        MqttPacket::parse_complete(&[0xe0, 0x02, 0x00, 0x00]).unwrap(),
        MqttPacket::parse_complete(&[0xe0, 0x00]).unwrap()
    );
}

#[test]
fn encoding_of_decoded_bytes_gives_the_bytes_back_where_they_were_canonical() {
    let inputs: Vec<Vec<u8>> = vec![
        vec![0xe0, 0x00],
        vec![0xe0, 0x06, 0x8e, 0x04, 0x1f, 0x00, 0x01, b'x'],
        vec![0x62, 0x02, 0x00, 0x0d],
        vec![0x20, 0x03, 0x00, 0x00, 0x00],
        vec![0x30, 0x09, 0x00, 0x03, b'a', b'/', b'b', 0x00, 0x01, 0x02, 0x03],
        vec![0x10, 0x0e, 0x00, 0x04, b'M', b'Q', b'T', b'T', 0x05, 0x02, 0x00, 0x3c, 0x00, 0x00, 0x01, b'a'],
    ];
    for input in inputs {
        let packet = MqttPacket::parse_complete(&input).unwrap();
        assert_eq!(packet.to_bytes().unwrap(), input);
    }
}

#[test]
fn properties_are_found_by_their_identifier() {
    let properties = Properties {
        entries: vec![
            user_property("a", "1"),
            Property { id: PropertyId::SessionExpiryInterval, value: PropertyValue::FourByteInteger(123) },
            string_property(PropertyId::ReasonString, "foo"),
            user_property("b", "2"),
            Property { id: PropertyId::ReceiveMaximum, value: PropertyValue::TwoByteInteger(7) },
            Property { id: PropertyId::MaximumQoS, value: PropertyValue::Byte(1) },
            Property {
                id: PropertyId::AuthenticationData,
                value: PropertyValue::BinaryData(MqttBytes::new(vec![9]).unwrap()),
            },
        ],
    };
    assert_eq!(properties.four_byte(PropertyId::SessionExpiryInterval), Some(123));
    assert_eq!(properties.four_byte(PropertyId::MessageExpiryInterval), None);
    assert_eq!(properties.two_byte(PropertyId::ReceiveMaximum), Some(7));
    assert_eq!(properties.byte(PropertyId::MaximumQoS), Some(1));
    assert_eq!(properties.byte(PropertyId::ReceiveMaximum), None);
    assert_eq!(properties.string(PropertyId::ReasonString).map(|s| s.as_str()), Some("foo"));
    assert_eq!(properties.string(PropertyId::ServerReference), None);
    assert_eq!(properties.binary(PropertyId::AuthenticationData).map(|b| b.as_slice()), Some(&[9u8][..]));
    let pairs: Vec<(&str, &str)> =
        properties.user_properties().iter().map(|(k, v)| (k.as_str(), v.as_str())).collect();
    assert_eq!(pairs, vec![("a", "1"), ("b", "2")]);
    assert!(!properties.is_empty());
    assert!(properties.is_valid(PropertyContext::Connack));
    assert!(!properties.is_valid(PropertyContext::Disconnect));
    assert_eq!(properties.check(PropertyContext::Disconnect), Err(DecodeError::ProtocolError(ProtocolReason::PropertyNotAllowed)));
    assert_eq!(properties.binary_size(), Some(1 + 7 + 5 + 6 + 7 + 3 + 2 + 4));
    let mut more = Properties::new();
    more.push(string_property(PropertyId::ReasonString, "a"));
    more.push(string_property(PropertyId::ReasonString, "b"));
    assert_eq!(more.check(PropertyContext::Disconnect), Err(DecodeError::ProtocolError(ProtocolReason::DuplicateProperty)));
    assert_eq!(more.get(PropertyId::ReasonString), Some(&PropertyValue::Utf8String(text("a"))));
}
