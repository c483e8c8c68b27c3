use cloudmqtt::client::CleanStart;
use cloudmqtt::client::ConnectStep;
use cloudmqtt::client::KeepAlive;
use cloudmqtt::client::MqttClientConnectError;
use cloudmqtt::client::MqttClientConnector;
use cloudmqtt::client::MqttWill;
use cloudmqtt::client::ProposedClientIdentifier;
use cloudmqtt::v5::packets::auth::MAuth;
use cloudmqtt::v5::packets::connack::MConnack;
use cloudmqtt::v5::packets::pingresp::MPingresp;
use cloudmqtt::v5::packets::MqttPacket;
use cloudmqtt::v5::properties::Properties;
use cloudmqtt::v5::properties::Property;
use cloudmqtt::v5::properties::PropertyId;
use cloudmqtt::v5::properties::PropertyValue;
use cloudmqtt::v5::qos::MaximumQualityOfService;
use cloudmqtt::v5::qos::QualityOfService;
use cloudmqtt::wire::integers::decode_varint;
use cloudmqtt::wire::read::DecodeError;
use cloudmqtt::v5::reason_code::AuthReasonCode;
use cloudmqtt::v5::reason_code::ConnackReasonCode;
use cloudmqtt::wire::strings::MqttBytes;
use cloudmqtt::wire::strings::MqttString;
use cloudmqtt::wire::write::MqttWriteError;

fn text(s: &str) -> MqttString {
    MqttString::new(s).unwrap()
}

fn connector(id: ProposedClientIdentifier, clean_start: CleanStart) -> MqttClientConnector<()> {
    MqttClientConnector::new((), id, clean_start, KeepAlive::Seconds(60))
}

fn connack(session_present: bool, reason_code: ConnackReasonCode, entries: Vec<Property>) -> MConnack {
    MConnack { session_present, reason_code, properties: Properties { entries } }
}

fn protocol_error(r: Result<ConnectStep, MqttClientConnectError>) -> &'static str {
    match r {
        Err(MqttClientConnectError::ServerProtocolError { reason }) => reason,
        _ => panic!("the answer breaks the protocol"),
    }
}

#[test]
fn clean_start_is_a_flag() {
    assert!(CleanStart::Yes.as_bool());
    assert!(!CleanStart::No.as_bool());
    assert_eq!(KeepAlive::Disabled.as_u16(), 0);
    assert_eq!(KeepAlive::Seconds(60).as_u16(), 60);
}

#[test]
fn connect_packet_carries_what_the_connector_holds() {
    let mut c = connector(ProposedClientIdentifier::MinimalRequired(text("a")), CleanStart::Yes);
    let minimal = MqttPacket::Connect(c.connect_packet());
    assert_eq!(
        minimal.to_bytes().unwrap(),
        vec![
            0x10, 0x0e, 0x00, 0x04, b'M', b'Q', b'T', b'T', 0x05, 0x02, 0x00, 0x3c, 0x00, 0x00, 0x01,
            b'a'
        ]
    );
    let mut will = MqttWill::new(
        text("w"),
        MqttBytes::new(b"bye".to_vec()).unwrap(),
        QualityOfService::AtLeastOnce,
        true,
    );
    will.get_properties_mut().push(Property {
        id: PropertyId::WillDelayInterval,
        value: PropertyValue::FourByteInteger(3),
    });
    c.with_username(text("user")).with_password(MqttBytes::new(vec![1]).unwrap()).with_will(will);
    c.properties_mut().push(Property {
        id: PropertyId::ReceiveMaximum,
        value: PropertyValue::TwoByteInteger(20),
    });
    let packet = c.connect_packet();
    assert_eq!(packet.client_identifier.as_str(), "a");
    assert_eq!(packet.username, Some(text("user")));
    assert_eq!(packet.password, Some(MqttBytes::new(vec![1]).unwrap()));
    assert!(packet.clean_start);
    assert_eq!(packet.keep_alive, 60);
    assert_eq!(packet.properties.entries.len(), 1);
    let sent = packet.will.unwrap();
    assert_eq!(sent.topic.as_str(), "w");
    assert_eq!(sent.payload.as_slice(), b"bye");
    assert_eq!(sent.will_qos, QualityOfService::AtLeastOnce);
    assert!(sent.will_retain);
    assert_eq!(sent.properties.entries.len(), 1);
    let empty = connector(ProposedClientIdentifier::PotentiallyServerProvided, CleanStart::No);
    assert_eq!(empty.connect_packet().client_identifier.as_str(), "");
    assert!(!empty.connect_packet().clean_start);
    let (transport, decisions) = empty.split();
    assert_eq!(transport, ());
    assert_eq!(decisions.connect_packet().client_identifier.as_str(), "");
    assert_eq!(decisions.into_transport(), ());
}

#[test]
fn will_builder_keeps_its_parts() {
    let will = MqttWill::new(text("w"), MqttBytes::new(vec![7]).unwrap(), QualityOfService::ExactlyOnce, false)
        .with_properties(Properties {
            entries: vec![Property { id: PropertyId::ContentType, value: PropertyValue::Utf8String(text("x")) }],
        });
    let as_sent = will.as_ref();
    assert_eq!(as_sent.properties.entries.len(), 1);
    assert_eq!(as_sent.will_qos, QualityOfService::ExactlyOnce);
    assert!(!as_sent.will_retain);
}

#[test]
fn closed_transport_and_undecodable_answers_fail() {
    let c = connector(ProposedClientIdentifier::MinimalRequired(text("a")), CleanStart::Yes);
    assert_eq!(c.on_response(None).err(), Some(MqttClientConnectError::TransportUnexpectedlyClosed));
    assert_eq!(
        c.on_response(Some(Err(DecodeError::InvalidVarInt))).err(),
        Some(MqttClientConnectError::Receive(DecodeError::InvalidVarInt))
    );
    assert_eq!(
        MqttClientConnectError::TransportUnexpectedlyClosed.message(),
        "The transport unexpectedly closed"
    );
}

#[test]
fn other_packets_break_the_protocol() {
    let c = connector(ProposedClientIdentifier::MinimalRequired(text("a")), CleanStart::Yes);
    assert_eq!(protocol_error(c.on_response(Some(Ok(MqttPacket::Pingresp(MPingresp))))), "MQTT-3.1.4-5");
}

#[test]
fn auth_needs_authentication_data() {
    let auth = MAuth { reason: AuthReasonCode::ContinueAuthentication, properties: Properties::new() };
    let mut c = connector(ProposedClientIdentifier::MinimalRequired(text("a")), CleanStart::Yes);
    assert!(!c.can_use_auth());
    assert_eq!(protocol_error(c.on_response(Some(Ok(MqttPacket::Auth(auth.clone()))))), "MQTT-4.12.0-6");
    c.properties_mut().push(Property {
        id: PropertyId::AuthenticationData,
        value: PropertyValue::BinaryData(MqttBytes::new(vec![1]).unwrap()),
    });
    assert!(c.can_use_auth());
    match c.on_response(Some(Ok(MqttPacket::Auth(auth.clone())))) {
        Ok(ConnectStep::ContinueAuthentication(a)) => assert_eq!(a, auth),
        _ => panic!("the exchange goes on"),
    }
}

#[test]
fn refusal_is_reported() {
    let c = connector(ProposedClientIdentifier::MinimalRequired(text("a")), CleanStart::Yes);
    match c.on_connack(&connack(false, ConnackReasonCode::NotAuthorized, vec![])) {
        Ok(ConnectStep::Refused(code)) => assert_eq!(code, ConnackReasonCode::NotAuthorized),
        _ => panic!("the server turned the client away"),
    }
}

#[test]
fn session_after_clean_start_breaks_the_protocol() {
    let c = connector(ProposedClientIdentifier::MinimalRequired(text("a")), CleanStart::Yes);
    assert_eq!(protocol_error(c.on_connack(&connack(true, ConnackReasonCode::Success, vec![]))), "MQTT-3.2.2-2");
    let c = connector(ProposedClientIdentifier::MinimalRequired(text("a")), CleanStart::No);
    assert!(c.on_connack(&connack(true, ConnackReasonCode::Success, vec![])).is_ok());
}

#[test]
fn identifier_is_the_proposed_or_the_assigned_one() {
    let assigned =
        || Property { id: PropertyId::AssignedClientIdentifier, value: PropertyValue::Utf8String(text("srv-1")) };
    let proposed = connector(ProposedClientIdentifier::PotentiallyAccepted(text("mine")), CleanStart::Yes);
    match proposed.on_response(Some(Ok(MqttPacket::Connack(connack(false, ConnackReasonCode::Success, vec![]))))) {
        Ok(ConnectStep::Connected { state, client_identifier }) => {
            assert_eq!(client_identifier.as_str(), "mine");
            assert!(!state.session_present);
            assert_eq!(state.receive_maximum, None);
        }
        _ => panic!("the server accepted the client"),
    }
    assert_eq!(
        protocol_error(proposed.on_connack(&connack(false, ConnackReasonCode::Success, vec![assigned()]))),
        "MQTT-3.2.2.3.7"
    );
    let none = connector(ProposedClientIdentifier::PotentiallyServerProvided, CleanStart::Yes);
    match none.on_connack(&connack(false, ConnackReasonCode::Success, vec![assigned()])) {
        Ok(ConnectStep::Connected { client_identifier, .. }) => assert_eq!(client_identifier.as_str(), "srv-1"),
        _ => panic!("the server accepted the client"),
    }
    assert_eq!(
        protocol_error(none.on_connack(&connack(false, ConnackReasonCode::Success, vec![]))),
        "MQTT-3.2.2.3.7"
    );
}

#[test]
fn connack_properties_are_read() {
    let c = connector(ProposedClientIdentifier::MinimalRequired(text("a")), CleanStart::No);
    let answer = connack(
        true,
        ConnackReasonCode::Success,
        vec![
            Property { id: PropertyId::ReceiveMaximum, value: PropertyValue::TwoByteInteger(10) },
            Property { id: PropertyId::MaximumQoS, value: PropertyValue::Byte(1) },
            Property { id: PropertyId::RetainAvailable, value: PropertyValue::Byte(0) },
            Property { id: PropertyId::TopicAliasMaximum, value: PropertyValue::TwoByteInteger(4) },
        ],
    );
    match c.on_connack(&answer) {
        Ok(ConnectStep::Connected { state, .. }) => {
            assert!(state.session_present);
            assert_eq!(state.receive_maximum, Some(10));
            assert_eq!(state.maximum_qos, Some(MaximumQualityOfService::AtLeastOnce));
            assert_eq!(state.retain_available, Some(false));
            assert_eq!(state.topic_alias_maximum, Some(4));
        }
        _ => panic!("the server accepted the client"),
    }
}

#[test]
fn connect_bytes_are_the_encoded_connect() {
    let mut c = connector(ProposedClientIdentifier::MinimalRequired(text("a")), CleanStart::Yes);
    assert_eq!(
        c.connect_bytes().unwrap(),
        vec![
            0x10, 0x0e, 0x00, 0x04, b'M', b'Q', b'T', b'T', 0x05, 0x02, 0x00, 0x3c, 0x00, 0x00, 0x01,
            b'a'
        ]
    );
    // a topic alias has no place in a CONNECT
    c.properties_mut().push(Property { id: PropertyId::TopicAlias, value: PropertyValue::TwoByteInteger(1) });
    assert_eq!(c.connect_bytes(), Err(MqttClientConnectError::Send(MqttWriteError::Invariant)));
    assert_eq!(
        MqttClientConnectError::Send(MqttWriteError::Invariant).message(),
        "An error occured while encoding or sending an MQTT Packet"
    );
}

#[test]
fn connect_bytes_are_one_frame() {
    // short, and long enough for a length of two bytes and of three
    for extra in [0usize, 200, 20_000] {
        let mut c = connector(ProposedClientIdentifier::MinimalRequired(text("a")), CleanStart::No);
        if extra > 0 {
            c.with_password(MqttBytes::new(vec![7u8; extra]).unwrap());
        }
        let bytes = c.connect_bytes().unwrap();
        assert_eq!(bytes[0], 0x10);
        let (length, used) = decode_varint(&bytes[1..]).unwrap();
        assert_eq!(length as usize, bytes.len() - 1 - used);
        let shortest = match length {
            0..=127 => 1,
            128..=16_383 => 2,
            16_384..=2_097_151 => 3,
            _ => 4,
        };
        assert_eq!(used, shortest);
        // the frame is the packet, and nothing else
        let packet = MqttPacket::parse_complete(&bytes).unwrap();
        assert_eq!(packet, MqttPacket::Connect(c.connect_packet()));
    }
    let mut short = connector(ProposedClientIdentifier::MinimalRequired(text("a")), CleanStart::No);
    assert_eq!(short.connect_bytes().unwrap()[1], 14);
    short.with_password(MqttBytes::new(vec![7u8; 200]).unwrap());
    // 14 bytes as before, two for the length of the password, and the password
    assert_eq!(&short.connect_bytes().unwrap()[1..3], &[0xd8, 0x01]);
}
