//! What a connection does: how it is accepted, what each packet from the
//! client leads to, which messages go out to it, and what is left to do
//! when it ends. The caller owns the transport and carries the decisions
//! out.

use vstd::prelude::*;
use crate::v3::packet::ConnectView;
use crate::server::login::LoginError;
use crate::v3::subscription_request::MSubscriptionRequest;
use crate::server::subscriptions::TopicFilter;
use crate::server::subscriptions::filter_is_valid;
use crate::server::subscriptions::filter_levels;
use crate::server::subscriptions::is_valid_filter;
use crate::server::ClientError;
use crate::server::spec_disconnect_reason;
use crate::v5::packets::disconnect::DisconnectView;
use crate::v5::packets::disconnect::MDisconnect;
use crate::v5::reason_code::DisconnectReasonCode;
use crate::server::ClientId;
use crate::server::login::LoginHandler;
use crate::server::message::MessageView;
use crate::server::message::MqttMessage;
use crate::server::session::SessionTable;
use crate::server::session::entry_of;
use crate::server::subscriptions::ClientInformation;
use crate::v3::connect_return::MConnectReturnCode;
use crate::v3::packet::MConnack;
use crate::v3::packet::MConnect;
use crate::v3::packet::MPacket;
use crate::v3::packet::MPublish;
use crate::v3::packet::MSuback;
use crate::v3::packet::PacketView;
use crate::v3::packet::PublishView;
use crate::v3::packet::SubackView;
use crate::v3::qos::MQualityOfService;
use crate::v3::subscription_acks::MSubscriptionAck;
use crate::v3::subscription_request::MSubscriptionRequests;
use crate::v3::subscription_request::SubscriptionRequestView;
use crate::wire::read::DecodeError;
use crate::wire::strings::MqttString;
use crate::wire::strings::strings_view;

verus! {

/// The protocol level by which a CONNECT announces MQTT 5.0.
pub const PROTOCOL_LEVEL_V5: u8 = 5;

/// How long a connection may stay silent, in milliseconds: one and a half
/// times the keep-alive. A keep-alive of zero switches the limit off.
pub open spec fn spec_keep_alive_timeout(keep_alive: u16) -> Option<u64> {
    if keep_alive == 0 {
        None
    } else {
        Some((keep_alive * 1500) as u64)
    }
}

pub fn keep_alive_timeout(keep_alive: u16) -> (r: Option<u64>)
    ensures
        r == spec_keep_alive_timeout(keep_alive),
{
    if keep_alive == 0 {
        None
    } else {
        Some((keep_alive as u64) * 1500)
    }
}

/// The lower of two quality of service levels.
pub open spec fn spec_capped(requested: MQualityOfService, maximum: MQualityOfService) -> MQualityOfService {
    if requested.spec_to_byte() <= maximum.spec_to_byte() {
        requested
    } else {
        maximum
    }
}

/// Whether a request names a valid topic filter.
pub open spec fn request_is_valid(request: SubscriptionRequestView) -> bool {
    is_valid_filter(filter_levels(request.topic))
}

/// What the broker grants for each request, in the order of the requests:
/// the requested quality of service, capped at the maximum of the broker,
/// or a failure where the topic filter is not valid.
pub open spec fn spec_grants(requests: Seq<SubscriptionRequestView>, maximum: MQualityOfService) -> Seq<
    MSubscriptionAck,
> {
    Seq::new(
        requests.len(),
        |i: int|
            if request_is_valid(requests[i]) {
                MSubscriptionAck::spec_granted(spec_capped(requests[i].qos, maximum))
            } else {
                MSubscriptionAck::Failure
            },
    )
}

/// The requests that the broker grants: those with a valid topic filter,
/// in the order of the requests.
pub open spec fn spec_granted_requests(requests: Seq<SubscriptionRequestView>) -> Seq<
    SubscriptionRequestView,
>
    decreases requests.len(),
{
    if requests.len() == 0 {
        Seq::empty()
    } else {
        let earlier = spec_granted_requests(requests.drop_last());
        if request_is_valid(requests.last()) {
            earlier.push(requests.last())
        } else {
            earlier
        }
    }
}

/// Decides on the requests of a SUBSCRIBE: what to answer for each, and
/// which of them to carry out.
pub fn grants(requests: &MSubscriptionRequests, maximum: MQualityOfService) -> (r: (
    Vec<MSubscriptionAck>,
    MSubscriptionRequests,
))
    ensures
        r.0@ == spec_grants(requests@, maximum),
        r.1@ == spec_granted_requests(requests@),
{
    let mut acks: Vec<MSubscriptionAck> = Vec::new();
    let mut granted: Vec<MSubscriptionRequest> = Vec::new();
    let mut i: usize = 0;
    proof {
        assert(requests@.take(0) =~= Seq::<SubscriptionRequestView>::empty());
    }
    while i < requests.requests.len()
        invariant
            i <= requests.requests@.len(),
            acks@.len() == i,
            forall|k: int| 0 <= k < i ==> #[trigger] acks@[k] == spec_grants(requests@, maximum)[k],
            Seq::new(granted@.len(), |k: int| granted@[k]@) == spec_granted_requests(
                requests@.take(i as int),
            ),
        decreases requests.requests@.len() - i,
    {
        let request = &requests.requests[i];
        proof {
            assert(requests@.take(i + 1).drop_last() =~= requests@.take(i as int));
            assert(requests@.take(i + 1).last() == request@);
        }
        let levels = TopicFilter::parse_from(request.topic.as_str().to_owned());
        if filter_is_valid(&levels) {
            acks.push(MSubscriptionAck::granted(request.qos.min(maximum)));
            let ghost before = Seq::new(granted@.len(), |k: int| granted@[k]@);
            granted.push(MSubscriptionRequest { topic: request.topic.clone(), qos: request.qos });
            proof {
                assert(Seq::new(granted@.len(), |k: int| granted@[k]@) =~= before.push(request@));
            }
        } else {
            acks.push(MSubscriptionAck::Failure);
        }
        i = i + 1;
    }
    proof {
        assert(acks@ =~= spec_grants(requests@, maximum));
        assert(requests@.take(requests@.len() as int) =~= requests@);
    }
    let kept = MSubscriptionRequests { requests: granted };
    proof {
        assert(kept@ =~= spec_granted_requests(requests@));
    }
    (acks, kept)
}

/// What the first packet of a connection leads to.
pub enum FirstAction {
    /// The client asks to connect.
    Connect(MConnect),
    /// The client did not start with a CONNECT: the transport is closed.
    Close,
}

/// A connection must start with a CONNECT.
pub fn on_first_packet(packet: MPacket) -> (r: FirstAction)
    ensures
        match r {
            FirstAction::Connect(c) => packet@ == PacketView::Connect(c@),
            FirstAction::Close => !(packet is Connect),
        },
{
    match packet {
        MPacket::Connect(c) => FirstAction::Connect(c),
        _ => FirstAction::Close,
    }
}

/// What the broker keeps for one connection.
pub struct ConnectionState {
    pub client_id: ClientId,
    /// The handle of the queue that the connection drains.
    pub connection: u64,
    /// The message to publish if the client goes away without a
    /// DISCONNECT.
    pub last_will: Option<MqttMessage>,
    pub keep_alive: u16,
    /// The highest quality of service that the broker grants.
    pub maximum_qos: MQualityOfService,
    /// Whether the session ends with the connection.
    pub clean_session: bool,
    /// The protocol level that the client speaks.
    pub protocol_level: u8,
}

/// A connection that was accepted.
pub struct Accepted {
    /// The answer to send.
    pub connack: MConnack,
    /// The connection that served the client before and is to be closed.
    pub taken_over: Option<u64>,
    pub state: ConnectionState,
}

/// What the login handler is asked: who wants in, and with which
/// credentials.
pub struct LoginRequest<'a> {
    pub client_id: ClientId,
    pub username: Option<&'a str>,
    pub password: Option<&'a [u8]>,
}

/// Whether a request to the login handler carries the client identifier,
/// the user name and the password of the CONNECT, and nothing else.
pub open spec fn is_login_request(request: LoginRequest<'_>, connect: ConnectView) -> bool {
    &&& request.client_id@ == connect.client_id
    &&& match connect.username {
        Some(u) => request.username is Some && request.username->0@ == u,
        None => request.username is None,
    }
    &&& match connect.password {
        Some(p) => request.password is Some && request.password->0@ == p,
        None => request.password is None,
    }
}

/// What to ask the login handler for a CONNECT.
pub fn login_request(connect: &MConnect) -> (r: LoginRequest<'_>)
    ensures
        is_login_request(r, connect@),
{
    LoginRequest {
        client_id: ClientId::new(connect.client_id.as_str().to_owned()),
        username: match &connect.username {
            Some(u) => Some(u.as_str()),
            None => None,
        },
        password: match &connect.password {
            Some(p) => Some(p.as_slice()),
            None => None,
        },
    }
}

/// The message that the will of a CONNECT asks for, where it has one.
pub open spec fn spec_will_message(connect: ConnectView) -> Option<MessageView> {
    match connect.will {
        Some(w) => Some(
            MessageView {
                author_id: connect.client_id,
                payload: w.payload,
                topic: w.topic,
                retain: w.retain,
                qos: w.qos,
            },
        ),
        None => None,
    }
}

/// What a CONNECT leads to once the login handler has answered.
///
/// The client is accepted exactly when the handler allowed it. An accepted
/// client gets an accepting CONNACK that reports a session exactly when
/// there was one and the client did not ask for a clean one; its session
/// starts on `connection`, the connection that held it before is named for
/// closing, and its will is kept. A client that was turned away gets the
/// return code of the refusal, and the sessions stay as they are.
pub open spec fn connect_outcome(
    before: Map<Seq<char>, u64>,
    connect: ConnectView,
    connection: u64,
    maximum_qos: MQualityOfService,
    allowed: Result<(), LoginError>,
    r: Result<Accepted, MConnack>,
    after: Map<Seq<char>, u64>,
) -> bool {
    match allowed {
        Ok(_) => {
            &&& r matches Ok(accepted)
            &&& accepted.connack == (MConnack {
                session_present: before.dom().contains(connect.client_id) && !connect.clean_session,
                connect_return_code: MConnectReturnCode::Accepted,
            })
            &&& accepted.taken_over == entry_of(before, connect.client_id)
            &&& after == before.insert(connect.client_id, connection)
            &&& accepted.state.client_id@ == connect.client_id
            &&& accepted.state.connection == connection
            &&& accepted.state.keep_alive == connect.keep_alive
            &&& accepted.state.maximum_qos == maximum_qos
            &&& accepted.state.clean_session == connect.clean_session
            &&& accepted.state.protocol_level == connect.protocol_level
            &&& match spec_will_message(connect) {
                Some(m) => accepted.state.last_will is Some && accepted.state.last_will->0@ == m,
                None => accepted.state.last_will is None,
            }
        },
        Err(_) => {
            &&& r matches Err(connack)
            &&& connack == (MConnack {
                session_present: false,
                connect_return_code: MConnectReturnCode::BadUsernamePassword,
            })
            &&& after == before
        },
    }
}

/// A client that may log in and has no session is accepted: it is told
/// that no session was present, no connection is named for closing, and
/// its session starts on its connection.
pub proof fn lemma_first_connect_is_accepted(
    before: Map<Seq<char>, u64>,
    connect: ConnectView,
    connection: u64,
    maximum_qos: MQualityOfService,
    r: Result<Accepted, MConnack>,
    after: Map<Seq<char>, u64>,
)
    requires
        !before.dom().contains(connect.client_id),
        connect_outcome(before, connect, connection, maximum_qos, Ok(()), r, after),
    ensures
        r is Ok,
        r->Ok_0.connack == (MConnack {
            session_present: false,
            connect_return_code: MConnectReturnCode::Accepted,
        }),
        r->Ok_0.taken_over is None,
        entry_of(after, connect.client_id) == Some(connection),
{
}

/// A second CONNECT under the same identifier takes the session over. The
/// second client is accepted and told that a session was present, unless
/// it asked for a clean one; the connection of the first is named for
/// closing, and the session is held by the connection of the second.
pub proof fn lemma_second_connect_is_accepted(
    before: Map<Seq<char>, u64>,
    first: ConnectView,
    first_connection: u64,
    first_result: Result<Accepted, MConnack>,
    between: Map<Seq<char>, u64>,
    second: ConnectView,
    second_connection: u64,
    second_result: Result<Accepted, MConnack>,
    after: Map<Seq<char>, u64>,
    maximum_qos: MQualityOfService,
)
    requires
        first.client_id == second.client_id,
        connect_outcome(before, first, first_connection, maximum_qos, Ok(()), first_result, between),
        connect_outcome(between, second, second_connection, maximum_qos, Ok(()), second_result, after),
    ensures
        second_result is Ok,
        second_result->Ok_0.connack == (MConnack {
            session_present: !second.clean_session,
            connect_return_code: MConnectReturnCode::Accepted,
        }),
        second_result->Ok_0.taken_over == Some(first_connection),
        entry_of(after, second.client_id) == Some(second_connection),
{
}

/// Decides on a CONNECT, given the answer of the login handler, as
/// `connect_outcome` says.
pub fn decide_connect(
    sessions: &mut SessionTable,
    connect: &MConnect,
    connection: u64,
    maximum_qos: MQualityOfService,
    allowed: Result<(), LoginError>,
) -> (r: Result<Accepted, MConnack>)
    ensures
        r is Ok <==> allowed is Ok,
        connect_outcome(
            old(sessions)@,
            connect@,
            connection,
            maximum_qos,
            allowed,
            r,
            final(sessions)@,
        ),
{
    match allowed {
        Err(e) => Err(
            MConnack { session_present: false, connect_return_code: e.as_rejection_code() },
        ),
        Ok(()) => {
            let client_id = ClientId::new(connect.client_id.as_str().to_owned());
            let start = sessions.connect(&client_id, connect.clean_session, connection);
            let last_will = match &connect.will {
                Some(w) => Some(MqttMessage::from_last_will(w, client_id.duplicate())),
                None => None,
            };
            Ok(
                Accepted {
                    connack: MConnack {
                        session_present: start.session_present,
                        connect_return_code: MConnectReturnCode::Accepted,
                    },
                    taken_over: start.taken_over,
                    state: ConnectionState {
                        client_id,
                        connection,
                        last_will,
                        keep_alive: connect.keep_alive,
                        maximum_qos,
                        clean_session: connect.clean_session,
                        protocol_level: connect.protocol_level,
                    },
                },
            )
        },
    }
}

/// Asks the login handler about a CONNECT and decides on it. The handler
/// is asked once, with the request that `login_request` makes, and what
/// follows from its answer is what `decide_connect` says.
pub fn accept_connect<L: LoginHandler>(
    sessions: &mut SessionTable,
    login: &L,
    connect: &MConnect,
    connection: u64,
    maximum_qos: MQualityOfService,
) -> (r: Result<Accepted, MConnack>)
    ensures
        exists|request: LoginRequest<'_>, allowed: Result<(), LoginError>|
            {
                &&& is_login_request(request, connect@)
                &&& #[trigger] call_ensures(
                    L::allow_login,
                    (login, &request.client_id, request.username, request.password),
                    allowed,
                )
                &&& connect_outcome(
                    old(sessions)@,
                    connect@,
                    connection,
                    maximum_qos,
                    allowed,
                    r,
                    final(sessions)@,
                )
            },
{
    let request = login_request(connect);
    let allowed = login.allow_login(&request.client_id, request.username, request.password);
    let r = decide_connect(sessions, connect, connection, maximum_qos, allowed);
    proof {
        assert(call_ensures(
            L::allow_login,
            (login, &request.client_id, request.username, request.password),
            allowed,
        ));
    }
    r
}

/// What the read loop of a connection meets.
pub enum ReadEvent {
    /// A packet from the client.
    Packet(MPacket),
    /// The bytes from the client did not decode.
    Failed(DecodeError),
    /// The transport was closed.
    Closed,
    /// The client was silent for too long.
    TimedOut,
}

/// Why a connection ends.
#[derive(Clone, Copy, Debug, PartialEq, Eq, Structural)]
pub enum StopReason {
    /// The client sent a DISCONNECT.
    Graceful,
    /// The bytes from the client did not decode.
    Malformed(DecodeError),
    /// The transport was closed.
    TransportClosed,
    /// The client was silent for too long.
    KeepAliveTimeout,
}

/// What the read loop of a connection does next.
pub enum ReadAction {
    /// Route the message, and send the acknowledgement where there is one.
    Publish { message: MqttMessage, ack: Option<MPacket> },
    /// Subscribe the client, and send the acknowledgement.
    Subscribe { client: ClientInformation, requests: MSubscriptionRequests, ack: MPacket },
    /// Take back the subscriptions of the client to the filters, and send
    /// the acknowledgement.
    Unsubscribe { client_id: ClientId, filters: Vec<MqttString>, ack: MPacket },
    /// Nothing.
    Ignore,
    /// Leave the loop.
    Stop { reason: StopReason },
}

/// The acknowledgement that a PUBLISH asks for: a PUBACK at quality of
/// service `AtLeastOnce`, nothing otherwise.
pub open spec fn spec_publish_ack(p: PublishView) -> Option<PacketView> {
    if p.qos == MQualityOfService::AtLeastOnce && p.id is Some {
        Some(PacketView::Puback { id: p.id->0 })
    } else {
        None
    }
}

/// The message that a PUBLISH of `author` carries.
pub open spec fn spec_message_of(author: Seq<char>, p: PublishView) -> MessageView {
    MessageView {
        author_id: author,
        payload: p.payload,
        topic: p.topic_name,
        retain: p.retain,
        qos: p.qos,
    }
}

impl ConnectionState {
    /// Decides what an event of the read loop leads to.
    ///
    /// A PUBLISH is routed in the name of the client and acknowledged where
    /// it asks for it. A SUBSCRIBE subscribes the client to the filters
    /// that are valid and is answered with one grant or failure for each
    /// request. An UNSUBSCRIBE takes the
    /// subscriptions back and is acknowledged. A DISCONNECT drops the will
    /// and ends the loop. Every failure ends the loop and keeps the will. Any
    /// other packet is passed over.
    pub fn on_event(&mut self, event: ReadEvent) -> (r: ReadAction)
        ensures
            final(self).client_id@ == old(self).client_id@,
            final(self).connection == old(self).connection,
            final(self).keep_alive == old(self).keep_alive,
            final(self).maximum_qos == old(self).maximum_qos,
            final(self).clean_session == old(self).clean_session,
            final(self).protocol_level == old(self).protocol_level,
            match event {
                ReadEvent::Packet(MPacket::Publish(p)) => {
                    &&& r matches ReadAction::Publish { message, ack }
                    &&& message@ == spec_message_of(old(self).client_id@, p@)
                    &&& match spec_publish_ack(p@) {
                        Some(a) => ack is Some && ack->0@ == a,
                        None => ack is None,
                    }
                    &&& final(self).last_will == old(self).last_will
                },
                ReadEvent::Packet(MPacket::Subscribe(s)) => {
                    &&& r matches ReadAction::Subscribe { client, requests, ack }
                    &&& client.client_id@ == old(self).client_id@
                    &&& client.client_sender == old(self).connection
                    &&& requests@ == spec_granted_requests(s@.subscriptions)
                    &&& ack@ == PacketView::Suback(
                        SubackView {
                            id: s.id,
                            subscription_acks: spec_grants(s@.subscriptions, old(self).maximum_qos),
                        },
                    )
                    &&& final(self).last_will == old(self).last_will
                },
                ReadEvent::Packet(MPacket::Unsubscribe(u)) => {
                    &&& r matches ReadAction::Unsubscribe { client_id, filters, ack }
                    &&& client_id@ == old(self).client_id@
                    &&& strings_view(filters@) == u@.unsubscriptions
                    &&& ack@ == PacketView::Unsuback { id: u.id }
                    &&& final(self).last_will == old(self).last_will
                },
                ReadEvent::Packet(MPacket::Disconnect) => {
                    &&& r matches ReadAction::Stop { reason }
                    &&& reason == StopReason::Graceful
                    &&& final(self).last_will is None
                },
                ReadEvent::Packet(_) => {
                    &&& r is Ignore
                    &&& final(self).last_will == old(self).last_will
                },
                ReadEvent::Failed(e) => {
                    &&& r matches ReadAction::Stop { reason }
                    &&& reason == StopReason::Malformed(e)
                    &&& final(self).last_will == old(self).last_will
                },
                ReadEvent::Closed => {
                    &&& r matches ReadAction::Stop { reason }
                    &&& reason == StopReason::TransportClosed
                    &&& final(self).last_will == old(self).last_will
                },
                ReadEvent::TimedOut => {
                    &&& r matches ReadAction::Stop { reason }
                    &&& reason == StopReason::KeepAliveTimeout
                    &&& final(self).last_will == old(self).last_will
                },
            },
    {
        match event {
            ReadEvent::Packet(MPacket::Publish(p)) => {
                let ack = match (p.qos, p.id) {
                    (MQualityOfService::AtLeastOnce, Some(id)) => Some(MPacket::Puback { id }),
                    _ => None,
                };
                let message = MqttMessage::new(
                    self.client_id.duplicate(),
                    p.payload,
                    p.topic_name,
                    p.retain,
                    p.qos,
                );
                ReadAction::Publish { message, ack }
            },
            ReadEvent::Packet(MPacket::Subscribe(s)) => {
                let (acks, requests) = grants(&s.subscriptions, self.maximum_qos);
                ReadAction::Subscribe {
                    client: ClientInformation {
                        client_id: self.client_id.duplicate(),
                        client_sender: self.connection,
                    },
                    requests,
                    ack: MPacket::Suback(MSuback { id: s.id, subscription_acks: acks }),
                }
            },
            ReadEvent::Packet(MPacket::Unsubscribe(u)) => ReadAction::Unsubscribe {
                client_id: self.client_id.duplicate(),
                filters: u.unsubscriptions,
                ack: MPacket::Unsuback { id: u.id },
            },
            ReadEvent::Packet(MPacket::Disconnect) => {
                self.last_will = None;
                ReadAction::Stop { reason: StopReason::Graceful }
            },
            ReadEvent::Packet(_) => ReadAction::Ignore,
            ReadEvent::Failed(e) => ReadAction::Stop { reason: StopReason::Malformed(e) },
            ReadEvent::Closed => ReadAction::Stop { reason: StopReason::TransportClosed },
            ReadEvent::TimedOut => ReadAction::Stop { reason: StopReason::KeepAliveTimeout },
        }
    }

    /// The packet that carries `message` to this client, or nothing where
    /// the client wrote the message itself.
    pub fn outgoing(&self, message: &MqttMessage) -> (r: Option<MPublish>)
        ensures
            match r {
                Some(p) => message@.author_id != self.client_id@ && p@ == (PublishView {
                    dup: false,
                    qos: MQualityOfService::AtMostOnce,
                    retain: message@.retain,
                    topic_name: message@.topic,
                    id: None,
                    payload: message@.payload,
                }),
                None => message@.author_id == self.client_id@,
            },
    {
        if message.author_id().equals(&self.client_id) {
            return None;
        }
        Some(
            MPublish {
                dup: false,
                qos: MQualityOfService::AtMostOnce,
                retain: message.retain(),
                topic_name: message.topic_name().clone(),
                id: None,
                payload: vstd::slice::slice_to_vec(message.payload()),
            },
        )
    }

    /// What is left to do when the connection ends: the will to publish,
    /// unless a DISCONNECT dropped it.
    pub fn finish(self) -> (r: Option<MqttMessage>)
        ensures
            r == self.last_will,
    {
        self.last_will
    }

    /// The error that a stop reason stands for, where it is one.
    pub open spec fn spec_stop_error(reason: StopReason) -> Option<ClientError> {
        match reason {
            StopReason::Graceful => None,
            StopReason::Malformed(e) => Some(ClientError::Packet(e)),
            StopReason::TransportClosed => Some(ClientError::TransportClosed),
            StopReason::KeepAliveTimeout => Some(ClientError::KeepAliveTimeout),
        }
    }

    /// The error that a stop reason stands for, where it is one.
    pub fn stop_error(reason: StopReason) -> (r: Option<ClientError>)
        ensures
            r == Self::spec_stop_error(reason),
    {
        match reason {
            StopReason::Graceful => None,
            StopReason::Malformed(e) => Some(ClientError::Packet(e)),
            StopReason::TransportClosed => Some(ClientError::TransportClosed),
            StopReason::KeepAliveTimeout => Some(ClientError::KeepAliveTimeout),
        }
    }

    /// The reason code that this client is told when its connection ends
    /// for `reason`: the code that matches the error, for a client that
    /// speaks MQTT 5.0. A client of an earlier version is told nothing,
    /// and so is one that left by itself or whose transport is closed.
    pub open spec fn spec_notice_reason(&self, reason: StopReason) -> Option<DisconnectReasonCode> {
        match Self::spec_stop_error(reason) {
            Some(e) => if self.protocol_level == PROTOCOL_LEVEL_V5 {
                spec_disconnect_reason(e)
            } else {
                None
            },
            None => None,
        }
    }

    /// The DISCONNECT to send before the transport is closed, where the
    /// client is told why: it carries the reason code and no properties.
    pub fn stop_notice(&self, reason: StopReason) -> (r: Option<MDisconnect>)
        ensures
            match self.spec_notice_reason(reason) {
                Some(code) => r is Some && r->0@ == (DisconnectView {
                    reason_code: code,
                    properties: Seq::empty(),
                }),
                None => r is None,
            },
    {
        if self.protocol_level != PROTOCOL_LEVEL_V5 {
            return None;
        }
        match Self::stop_error(reason) {
            Some(e) => e.disconnect_notice(),
            None => None,
        }
    }

    /// Gives the session of the client up when its connection ends. A
    /// session that another connection took over meanwhile stays. Hands
    /// back the connection that held the session.
    pub fn release_session(&self, sessions: &mut SessionTable) -> (r: Option<u64>)
        ensures
            r == entry_of(old(sessions)@, self.client_id@),
            final(sessions)@ == if r == Some(self.connection) {
                old(sessions)@.remove(self.client_id@)
            } else {
                old(sessions)@
            },
    {
        sessions.release(&self.client_id, self.connection)
    }
}

} // verus!
