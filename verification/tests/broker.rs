use cloudmqtt::server::login::LoginError;
use cloudmqtt::server::login::LoginHandler;
use cloudmqtt::server::message::MqttMessage;
use cloudmqtt::server::router::accept_connect;
use cloudmqtt::server::router::decide_connect;
use cloudmqtt::server::router::login_request;
use cloudmqtt::server::router::grants;
use cloudmqtt::server::router::keep_alive_timeout;
use cloudmqtt::server::router::on_first_packet;
use cloudmqtt::server::router::ConnectionState;
use cloudmqtt::server::router::FirstAction;
use cloudmqtt::server::router::ReadAction;
use cloudmqtt::server::router::ReadEvent;
use cloudmqtt::server::router::StopReason;
use cloudmqtt::server::session::SessionTable;
use cloudmqtt::server::subscriptions::SubscriptionManager;
use cloudmqtt::server::ClientError;
use cloudmqtt::server::ClientId;
use cloudmqtt::v3::connect_return::MConnectReturnCode;
use cloudmqtt::v3::packet::MConnect;
use cloudmqtt::v3::packet::MPacket;
use cloudmqtt::v3::packet::MPublish;
use cloudmqtt::v3::packet::MSuback;
use cloudmqtt::v3::packet::MSubscribe;
use cloudmqtt::v3::packet::MUnsubscribe;
use cloudmqtt::v5::packets::disconnect::MDisconnect;
use cloudmqtt::v5::properties::Properties;
use cloudmqtt::wire::read::MalformedReason;
use cloudmqtt::wire::read::ProtocolReason;
use cloudmqtt::v5::reason_code::ConnackReasonCode;
use cloudmqtt::v5::reason_code::DisconnectReasonCode;
use cloudmqtt::wire::write::MqttWriteError;
use cloudmqtt::v3::qos::MQualityOfService;
use cloudmqtt::v3::subscription_acks::MSubscriptionAck;
use cloudmqtt::v3::subscription_request::MSubscriptionRequest;
use cloudmqtt::v3::subscription_request::MSubscriptionRequests;
use cloudmqtt::v3::will::MLastWill;
use cloudmqtt::wire::read::DecodeError;
use cloudmqtt::wire::strings::MqttBytes;
use cloudmqtt::wire::strings::MqttString;

fn text(s: &str) -> MqttString {
    MqttString::new(s).unwrap()
}

fn connect(client_id: &str, clean_session: bool, will: Option<MLastWill>) -> MConnect {
    MConnect {
        protocol_name: text("MQTT"),
        protocol_level: 4,
        clean_session,
        will,
        username: None,
        password: None,
        keep_alive: 60,
        client_id: text(client_id),
    }
}

fn subscribe(filter: &str, qos: MQualityOfService) -> MPacket {
    MPacket::Subscribe(MSubscribe {
        id: 5,
        subscriptions: MSubscriptionRequests {
            requests: vec![MSubscriptionRequest { topic: text(filter), qos }],
        },
    })
}

fn publish(topic: &str, payload: &[u8], qos: MQualityOfService, id: Option<u16>) -> MPacket {
    MPacket::Publish(MPublish {
        dup: false,
        qos,
        retain: false,
        topic_name: text(topic),
        id,
        payload: payload.to_vec(),
    })
}

fn accept(sessions: &mut SessionTable, packet: &MConnect, connection: u64) -> ConnectionState {
    accept_connect(sessions, &(), packet, connection, MQualityOfService::ExactlyOnce).unwrap().state
}

struct Password;

impl LoginHandler for Password {
    fn allow_login(
        &self,
        _client_id: &ClientId,
        _username: Option<&str>,
        password: Option<&[u8]>,
    ) -> Result<(), LoginError> {
        if password == Some(&b"secret"[..]) {
            Ok(())
        } else {
            Err(LoginError::InvalidPassword)
        }
    }
}

#[test]
fn keep_alive_timeout_is_one_and_a_half_times_the_keep_alive() {
    assert_eq!(keep_alive_timeout(0), None);
    assert_eq!(keep_alive_timeout(1), Some(1_500));
    assert_eq!(keep_alive_timeout(60), Some(90_000));
    assert_eq!(keep_alive_timeout(65_535), Some(98_302_500));
}

#[test]
fn connection_must_start_with_connect() {
    assert!(matches!(on_first_packet(MPacket::Pingreq), FirstAction::Close));
    assert!(matches!(
        on_first_packet(MPacket::Connect(connect("c1", true, None))),
        FirstAction::Connect(c) if c.client_id.as_str() == "c1"
    ));
}

#[test]
fn session_table_reports_sessions() {
    let mut sessions = SessionTable::new();
    let c1 = ClientId::new("c1".to_string());
    assert_eq!(sessions.get(&c1), None);
    let first = sessions.connect(&c1, true, 1);
    assert!(!first.session_present);
    assert_eq!(first.taken_over, None);
    assert_eq!(sessions.get(&c1), Some(1));
    let second = sessions.connect(&c1, false, 2);
    assert!(second.session_present);
    assert_eq!(second.taken_over, Some(1));
    assert_eq!(sessions.get(&c1), Some(2));
    let third = sessions.connect(&c1, true, 3);
    assert!(!third.session_present);
    assert_eq!(third.taken_over, Some(2));
    assert_eq!(sessions.get(&ClientId::new("c2".to_string())), None);
    assert_eq!(sessions.takeover(&c1, 4), Some(3));
    assert_eq!(sessions.takeover(&ClientId::new("c2".to_string()), 5), None);
    assert_eq!(sessions.get(&ClientId::new("c2".to_string())), None);
    assert_eq!(sessions.release(&c1, 3), Some(4));
    assert_eq!(sessions.get(&c1), Some(4));
    assert_eq!(sessions.release(&c1, 4), Some(4));
    assert_eq!(sessions.get(&c1), None);
}

#[test]
fn session_takeover() {
    let mut sessions = SessionTable::new();
    let manager = SubscriptionManager::new();
    let a = accept_connect(&mut sessions, &(), &connect("c1", false, None), 1, MQualityOfService::ExactlyOnce)
        .unwrap();
    assert!(!a.connack.session_present);
    assert_eq!(a.taken_over, None);
    let mut state = a.state;
    match state.on_event(ReadEvent::Packet(subscribe("t", MQualityOfService::AtMostOnce))) {
        ReadAction::Subscribe { client, requests, .. } => {
            manager.subscribe(&client, &requests);
        }
        _ => panic!("a SUBSCRIBE subscribes"),
    }
    let b = accept_connect(&mut sessions, &(), &connect("c1", false, None), 2, MQualityOfService::ExactlyOnce)
        .unwrap();
    assert!(b.connack.session_present);
    assert_eq!(b.connack.connect_return_code, MConnectReturnCode::Accepted);
    // the connection of A is the one to close
    assert_eq!(b.taken_over, Some(1));
    assert!(matches!(
        state.on_event(ReadEvent::Closed),
        ReadAction::Stop { reason: StopReason::TransportClosed }
    ));
}

#[test]
fn login_handler_decides() {
    let mut sessions = SessionTable::new();
    let mut packet = connect("c1", false, None);
    packet.username = Some(text("user"));
    packet.password = Some(MqttBytes::new(b"wrong".to_vec()).unwrap());
    let refused = accept_connect(&mut sessions, &Password, &packet, 1, MQualityOfService::AtMostOnce);
    match refused {
        Err(connack) => {
            assert!(!connack.session_present);
            assert_eq!(connack.connect_return_code, MConnectReturnCode::BadUsernamePassword);
        }
        Ok(_) => panic!("a wrong password is turned away"),
    }
    assert_eq!(sessions.get(&ClientId::new("c1".to_string())), None);
    packet.password = Some(MqttBytes::new(b"secret".to_vec()).unwrap());
    assert!(accept_connect(&mut sessions, &Password, &packet, 1, MQualityOfService::AtMostOnce).is_ok());
    assert_eq!(sessions.get(&ClientId::new("c1".to_string())), Some(1));
    assert_eq!(LoginError::InvalidPassword.as_rejection_code(), MConnectReturnCode::BadUsernamePassword);
    assert_eq!(LoginError::InvalidPassword.message(), "The given password did not match");
    assert_eq!(().allow_login(&ClientId::new("x".to_string()), None, None), Ok(()));
}

#[test]
fn subscribe_and_suback() {
    let mut sessions = SessionTable::new();
    let manager = SubscriptionManager::new();
    let mut subscriber = accept(&mut sessions, &connect("sub", true, None), 1);
    let mut publisher = accept(&mut sessions, &connect("pub", true, None), 2);

    match subscriber.on_event(ReadEvent::Packet(subscribe("sport/+", MQualityOfService::AtLeastOnce))) {
        ReadAction::Subscribe { client, requests, ack } => {
            assert_eq!(
                ack,
                MPacket::Suback(MSuback {
                    id: 5,
                    subscription_acks: vec![MSubscriptionAck::MaximumQualityAtLeastOnce],
                })
            );
            assert_eq!(ack.to_bytes().unwrap(), vec![0x90, 0x03, 0x00, 0x05, 0x01]);
            manager.subscribe(&client, &requests);
        }
        _ => panic!("a SUBSCRIBE subscribes"),
    }

    let action = publisher.on_event(ReadEvent::Packet(publish(
        "sport/tennis",
        b"love",
        MQualityOfService::AtMostOnce,
        None,
    )));
    let message = match action {
        ReadAction::Publish { message, ack } => {
            assert_eq!(ack, None);
            message
        }
        _ => panic!("a PUBLISH is routed"),
    };
    let reached = manager.route_message(&message);
    assert_eq!(reached.len(), 1);
    assert_eq!(reached[0].client.client_sender, 1);
    let outgoing = subscriber.outgoing(&message).unwrap();
    assert_eq!(outgoing.topic_name.as_str(), "sport/tennis");
    assert_eq!(outgoing.payload, b"love".to_vec());
    assert_eq!(outgoing.qos, MQualityOfService::AtMostOnce);
    assert_eq!(outgoing.id, None);
    assert!(!outgoing.dup);
    // the publisher does not hear its own message
    assert_eq!(publisher.outgoing(&message), None);
}

#[test]
fn grants_are_capped_at_the_maximum_of_the_broker() {
    let requests = MSubscriptionRequests {
        requests: vec![
            MSubscriptionRequest { topic: text("a"), qos: MQualityOfService::AtMostOnce },
            MSubscriptionRequest { topic: text("b"), qos: MQualityOfService::AtLeastOnce },
            MSubscriptionRequest { topic: text("c"), qos: MQualityOfService::ExactlyOnce },
        ],
    };
    assert_eq!(
        grants(&requests, MQualityOfService::AtLeastOnce).0,
        vec![
            MSubscriptionAck::MaximumQualityAtMostOnce,
            MSubscriptionAck::MaximumQualityAtLeastOnce,
            MSubscriptionAck::MaximumQualityAtLeastOnce,
        ]
    );
    assert_eq!(
        grants(&requests, MQualityOfService::AtMostOnce).0,
        vec![MSubscriptionAck::MaximumQualityAtMostOnce; 3]
    );
    assert_eq!(grants(&requests, MQualityOfService::AtMostOnce).1, requests);
}

#[test]
fn publish_at_qos_1_is_acknowledged() {
    let mut sessions = SessionTable::new();
    let mut state = accept(&mut sessions, &connect("pub", true, None), 2);
    match state.on_event(ReadEvent::Packet(publish("t", b"x", MQualityOfService::AtLeastOnce, Some(9)))) {
        ReadAction::Publish { message, ack } => {
            assert_eq!(ack, Some(MPacket::Puback { id: 9 }));
            assert_eq!(message.author_id().as_str(), "pub");
            assert_eq!(message.topic(), "t");
            assert_eq!(message.payload(), b"x");
            assert_eq!(message.qos(), MQualityOfService::AtLeastOnce);
            assert!(!message.retain());
        }
        _ => panic!("a PUBLISH is routed"),
    }
    match state.on_event(ReadEvent::Packet(publish("t", b"x", MQualityOfService::ExactlyOnce, Some(9)))) {
        ReadAction::Publish { ack, .. } => assert_eq!(ack, None),
        _ => panic!("a PUBLISH is routed"),
    }
    assert!(matches!(state.on_event(ReadEvent::Packet(MPacket::Pingreq)), ReadAction::Ignore));
    assert!(matches!(state.on_event(ReadEvent::Packet(MPacket::Pubrec { id: 1 })), ReadAction::Ignore));
}

#[test]
fn will_on_ungraceful_close() {
    let mut sessions = SessionTable::new();
    let manager = SubscriptionManager::new();
    let mut subscriber = accept(&mut sessions, &connect("sub", true, None), 1);
    match subscriber.on_event(ReadEvent::Packet(subscribe("w", MQualityOfService::AtMostOnce))) {
        ReadAction::Subscribe { client, requests, .. } => {
            manager.subscribe(&client, &requests);
        }
        _ => panic!("a SUBSCRIBE subscribes"),
    }
    let will = MLastWill {
        topic: text("w"),
        payload: MqttBytes::new(b"bye".to_vec()).unwrap(),
        qos: MQualityOfService::AtMostOnce,
        retain: false,
    };
    let mut client = accept(&mut sessions, &connect("c", true, Some(will)), 2);
    assert!(matches!(
        client.on_event(ReadEvent::Closed),
        ReadAction::Stop { reason: StopReason::TransportClosed }
    ));
    let message: MqttMessage = client.finish().unwrap();
    let reached = manager.route_message(&message);
    assert_eq!(reached.len(), 1);
    assert_eq!(reached[0].client.client_sender, 1);
    let outgoing = subscriber.outgoing(&message).unwrap();
    assert_eq!(outgoing.topic_name.as_str(), "w");
    assert_eq!(outgoing.payload, b"bye".to_vec());
}

#[test]
fn graceful_disconnect_drops_the_will() {
    let mut sessions = SessionTable::new();
    let will = MLastWill {
        topic: text("w"),
        payload: MqttBytes::new(b"bye".to_vec()).unwrap(),
        qos: MQualityOfService::AtMostOnce,
        retain: false,
    };
    let mut client = accept(&mut sessions, &connect("c", true, Some(will)), 2);
    assert!(client.last_will.is_some());
    assert!(matches!(
        client.on_event(ReadEvent::Packet(MPacket::Disconnect)),
        ReadAction::Stop { reason: StopReason::Graceful }
    ));
    assert_eq!(client.finish(), None);
}

#[test]
fn failures_stop_the_loop_and_keep_the_will() {
    let mut sessions = SessionTable::new();
    let will = MLastWill {
        topic: text("w"),
        payload: MqttBytes::new(b"bye".to_vec()).unwrap(),
        qos: MQualityOfService::AtMostOnce,
        retain: false,
    };
    let mut client = accept(&mut sessions, &connect("c", true, Some(will)), 2);
    assert!(matches!(
        client.on_event(ReadEvent::Failed(DecodeError::InvalidUtf8)),
        ReadAction::Stop { reason: StopReason::Malformed(DecodeError::InvalidUtf8) }
    ));
    assert!(matches!(
        client.on_event(ReadEvent::TimedOut),
        ReadAction::Stop { reason: StopReason::KeepAliveTimeout }
    ));
    assert!(client.last_will.is_some());
    assert_eq!(ConnectionState::stop_error(StopReason::Graceful), None);
    assert_eq!(
        ConnectionState::stop_error(StopReason::Malformed(DecodeError::InvalidUtf8)),
        Some(ClientError::Packet(DecodeError::InvalidUtf8))
    );
    assert_eq!(
        ConnectionState::stop_error(StopReason::KeepAliveTimeout),
        Some(ClientError::KeepAliveTimeout)
    );
    assert_eq!(ConnectionState::stop_error(StopReason::TransportClosed), Some(ClientError::TransportClosed));
}

#[test]
fn unsubscribe_is_acknowledged_and_takes_the_subscription_back() {
    let mut sessions = SessionTable::new();
    let manager = SubscriptionManager::new();
    let mut subscriber = accept(&mut sessions, &connect("sub", true, None), 1);
    match subscriber.on_event(ReadEvent::Packet(subscribe("a/b", MQualityOfService::AtMostOnce))) {
        ReadAction::Subscribe { client, requests, .. } => {
            manager.subscribe(&client, &requests);
        }
        _ => panic!("a SUBSCRIBE subscribes"),
    }
    let message =
        MqttMessage::new(ClientId::new("p".to_string()), vec![], text("a/b"), false, MQualityOfService::AtMostOnce);
    assert_eq!(manager.route_message(&message).len(), 1);
    let packet = MPacket::Unsubscribe(MUnsubscribe { id: 8, unsubscriptions: vec![text("a/b")] });
    match subscriber.on_event(ReadEvent::Packet(packet)) {
        ReadAction::Unsubscribe { client_id, filters, ack } => {
            assert_eq!(ack, MPacket::Unsuback { id: 8 });
            assert_eq!(client_id.as_str(), "sub");
            manager.unsubscribe(&client_id, &filters);
        }
        _ => panic!("an UNSUBSCRIBE takes subscriptions back"),
    }
    assert!(manager.route_message(&message).is_empty());
}

#[test]
fn errors_map_to_reason_codes() {
    assert_eq!(ClientError::Packet(DecodeError::Incomplete).disconnect_reason(), None);
    assert_eq!(
        ClientError::Packet(DecodeError::InvalidUtf8).disconnect_reason(),
        Some(DisconnectReasonCode::MalformedPacket)
    );
    assert_eq!(
        ClientError::Packet(DecodeError::InvalidVarInt).disconnect_reason(),
        Some(DisconnectReasonCode::MalformedPacket)
    );
    assert_eq!(
        ClientError::Packet(DecodeError::InvalidFixedHeaderFlags).disconnect_reason(),
        Some(DisconnectReasonCode::MalformedPacket)
    );
    assert_eq!(
        ClientError::Packet(DecodeError::MalformedPacket(MalformedReason::TrailingBytes)).disconnect_reason(),
        Some(DisconnectReasonCode::MalformedPacket)
    );
    assert_eq!(
        ClientError::Packet(DecodeError::ProtocolError(ProtocolReason::DuplicateProperty)).disconnect_reason(),
        Some(DisconnectReasonCode::ProtocolError)
    );
    assert_eq!(
        ClientError::Packet(DecodeError::PacketTooLarge).disconnect_reason(),
        Some(DisconnectReasonCode::PacketTooLarge)
    );
    assert_eq!(ClientError::TransportClosed.disconnect_reason(), None);
    assert_eq!(ClientError::KeepAliveTimeout.disconnect_reason(), Some(DisconnectReasonCode::KeepAliveTimeout));
    assert_eq!(ClientError::AuthenticationFailed.disconnect_reason(), Some(DisconnectReasonCode::NotAuthorized));
    assert_eq!(ClientError::SessionTakenOver.disconnect_reason(), Some(DisconnectReasonCode::SessionTakenOver));
    assert_eq!(ClientError::DuplicateClientId.disconnect_reason(), Some(DisconnectReasonCode::UnspecifiedError));
    assert_eq!(ClientError::QuotaExceeded.disconnect_reason(), Some(DisconnectReasonCode::QuotaExceeded));
    assert_eq!(
        ClientError::SessionTakenOver.disconnect_notice(),
        Some(MDisconnect { reason_code: DisconnectReasonCode::SessionTakenOver, properties: Properties::new() })
    );
    assert_eq!(ClientError::TransportClosed.disconnect_notice(), None);
    assert_eq!(ClientError::from_write_error(MqttWriteError::BufferFull), ClientError::QuotaExceeded);
    assert_eq!(
        ClientError::from_write_error(MqttWriteError::Invariant),
        ClientError::Packet(DecodeError::MalformedPacket(MalformedReason::InvalidValue))
    );
    assert_eq!(LoginError::InvalidPassword.as_reason_code(), ConnackReasonCode::NotAuthorized);
}

#[test]
fn invalid_filters_are_answered_with_a_failure_and_not_subscribed() {
    let mut sessions = SessionTable::new();
    let manager = SubscriptionManager::new();
    let mut subscriber = accept(&mut sessions, &connect("sub", true, None), 1);
    let packet = MPacket::Subscribe(MSubscribe {
        id: 3,
        subscriptions: MSubscriptionRequests {
            requests: vec![
                MSubscriptionRequest { topic: text("a/#/b"), qos: MQualityOfService::AtMostOnce },
                MSubscriptionRequest { topic: text("a/b+"), qos: MQualityOfService::AtMostOnce },
                MSubscriptionRequest { topic: text("a/+/b"), qos: MQualityOfService::ExactlyOnce },
                MSubscriptionRequest { topic: text("#a"), qos: MQualityOfService::AtMostOnce },
            ],
        },
    });
    match subscriber.on_event(ReadEvent::Packet(packet)) {
        ReadAction::Subscribe { client, requests, ack } => {
            assert_eq!(
                ack,
                MPacket::Suback(MSuback {
                    id: 3,
                    subscription_acks: vec![
                        MSubscriptionAck::Failure,
                        MSubscriptionAck::Failure,
                        MSubscriptionAck::MaximumQualityExactlyOnce,
                        MSubscriptionAck::Failure,
                    ],
                })
            );
            assert_eq!(
                requests.requests,
                vec![MSubscriptionRequest { topic: text("a/+/b"), qos: MQualityOfService::ExactlyOnce }]
            );
            manager.subscribe(&client, &requests);
        }
        _ => panic!("a SUBSCRIBE subscribes"),
    }
    assert_eq!(manager.snapshot().children.len(), 1);
}

#[test]
fn the_answer_of_the_login_handler_decides_the_connect() {
    let mut sessions = SessionTable::new();
    let c1 = ClientId::new("c1".to_string());
    let will = MLastWill {
        topic: text("gone"),
        payload: MqttBytes::new(b"bye".to_vec()).unwrap(),
        qos: MQualityOfService::AtLeastOnce,
        retain: true,
    };

    let refused =
        decide_connect(&mut sessions, &connect("c1", false, None), 1, MQualityOfService::AtLeastOnce, Err(LoginError::InvalidPassword));
    match refused {
        Err(connack) => {
            assert!(!connack.session_present);
            assert_eq!(connack.connect_return_code, MConnectReturnCode::BadUsernamePassword);
        }
        Ok(_) => panic!("a client that may not log in is turned away"),
    }
    assert_eq!(sessions.get(&c1), None);

    let first =
        decide_connect(&mut sessions, &connect("c1", false, Some(will)), 1, MQualityOfService::AtLeastOnce, Ok(()))
            .ok()
            .unwrap();
    assert!(!first.connack.session_present);
    assert_eq!(first.connack.connect_return_code, MConnectReturnCode::Accepted);
    assert_eq!(first.taken_over, None);
    assert_eq!(first.state.client_id.as_str(), "c1");
    assert_eq!(first.state.connection, 1);
    assert_eq!(first.state.keep_alive, 60);
    assert_eq!(first.state.maximum_qos, MQualityOfService::AtLeastOnce);
    assert!(!first.state.clean_session);
    assert_eq!(first.state.protocol_level, 4);
    let last_will = first.state.last_will.as_ref().unwrap();
    assert_eq!(last_will.topic(), "gone");
    assert_eq!(last_will.payload(), b"bye");
    assert!(last_will.retain());
    assert_eq!(sessions.get(&c1), Some(1));

    let second = decide_connect(&mut sessions, &connect("c1", false, None), 2, MQualityOfService::AtLeastOnce, Ok(()))
        .ok()
        .unwrap();
    assert!(second.connack.session_present);
    assert_eq!(second.taken_over, Some(1));
    assert!(second.state.last_will.is_none());
    assert_eq!(sessions.get(&c1), Some(2));

    let third = decide_connect(&mut sessions, &connect("c1", true, None), 3, MQualityOfService::AtLeastOnce, Ok(()))
        .ok()
        .unwrap();
    assert!(!third.connack.session_present);
    assert_eq!(third.taken_over, Some(2));
    assert!(third.state.clean_session);
    assert_eq!(sessions.get(&c1), Some(3));

    // a refusal leaves the session where it is
    let again =
        decide_connect(&mut sessions, &connect("c1", true, None), 4, MQualityOfService::AtLeastOnce, Err(LoginError::InvalidPassword));
    assert!(again.is_err());
    assert_eq!(sessions.get(&c1), Some(3));
}

#[test]
fn the_login_handler_is_asked_with_the_credentials_of_the_connect() {
    let mut packet = connect("c7", false, None);
    let bare = login_request(&packet);
    assert_eq!(bare.client_id.as_str(), "c7");
    assert_eq!(bare.username, None);
    assert_eq!(bare.password, None);
    packet.username = Some(text("user"));
    packet.password = Some(MqttBytes::new(vec![0, 1, 2]).unwrap());
    let full = login_request(&packet);
    assert_eq!(full.client_id.as_str(), "c7");
    assert_eq!(full.username, Some("user"));
    assert_eq!(full.password, Some(&[0u8, 1, 2][..]));
}

#[test]
fn a_client_of_version_five_is_told_why_its_connection_ends() {
    let mut sessions = SessionTable::new();
    let mut state = accept(&mut sessions, &connect("c1", false, None), 1);
    let malformed = StopReason::Malformed(DecodeError::InvalidUtf8);
    // a client of MQTT 3.1.1 cannot read a DISCONNECT from the server
    assert_eq!(state.protocol_level, 4);
    assert!(state.stop_notice(malformed).is_none());
    assert!(state.stop_notice(StopReason::KeepAliveTimeout).is_none());

    state.protocol_level = 5;
    let notice = state.stop_notice(malformed).unwrap();
    assert_eq!(notice.reason_code, DisconnectReasonCode::MalformedPacket);
    assert!(notice.properties.entries.is_empty());
    assert_eq!(
        state.stop_notice(StopReason::Malformed(DecodeError::PacketTooLarge)).unwrap().reason_code,
        DisconnectReasonCode::PacketTooLarge
    );
    assert_eq!(
        state
            .stop_notice(StopReason::Malformed(DecodeError::ProtocolError(ProtocolReason::EmptyPayload)))
            .unwrap()
            .reason_code,
        DisconnectReasonCode::ProtocolError
    );
    assert_eq!(
        state.stop_notice(StopReason::KeepAliveTimeout).unwrap().reason_code,
        DisconnectReasonCode::KeepAliveTimeout
    );
    assert!(state.stop_notice(StopReason::Graceful).is_none());
    assert!(state.stop_notice(StopReason::TransportClosed).is_none());
    assert!(state.stop_notice(StopReason::Malformed(DecodeError::Incomplete)).is_none());
}

#[test]
fn a_connection_that_ends_gives_its_session_up() {
    let mut sessions = SessionTable::new();
    let c1 = ClientId::new("c1".to_string());
    let first = accept(&mut sessions, &connect("c1", false, None), 1);
    assert_eq!(first.release_session(&mut sessions), Some(1));
    assert_eq!(sessions.get(&c1), None);
    // nothing is left to give up
    assert_eq!(first.release_session(&mut sessions), None);

    let old = accept(&mut sessions, &connect("c1", false, None), 2);
    let new = accept(&mut sessions, &connect("c1", false, None), 3);
    // the session went to the later connection and stays with it
    assert_eq!(old.release_session(&mut sessions), Some(3));
    assert_eq!(sessions.get(&c1), Some(3));
    assert_eq!(new.release_session(&mut sessions), Some(3));
    assert_eq!(sessions.get(&c1), None);
}
