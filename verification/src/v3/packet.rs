//! The control packets of MQTT 3.1.1 and their wire format.

use vstd::prelude::*;
use crate::v3::connect_return::MConnectReturnCode;
use crate::v3::qos::MQualityOfService;
use crate::v3::subscription_acks::MSubscriptionAck;
use crate::v3::subscription_request::MSubscriptionRequest;
use crate::v3::subscription_request::MSubscriptionRequests;
use crate::v3::subscription_request::SubscriptionRequestView;
use crate::v3::will::LastWillView;
use crate::v3::will::MLastWill;
use crate::wire::fixed_header::FixedHeader;
use crate::wire::fixed_header::PacketType;
use crate::wire::fixed_header::spec_take_fixed_header;
use crate::wire::read::DecodeError;
use crate::wire::read::MResult;
use crate::wire::read::MalformedReason;
use crate::wire::read::ProtocolReason;
use crate::wire::read::Reader;
use crate::wire::read::bounded;
use crate::wire::read::reads_view;
use crate::wire::read::spec_bounded;
use crate::wire::read::spec_take_binary;
use crate::wire::read::spec_take_u16_be;
use crate::wire::read::spec_take_u8;
use crate::wire::strings::MqttBytes;
use crate::wire::strings::MqttString;
use crate::wire::strings::has_wildcard;
use crate::wire::strings::is_mqtt_string;
use crate::wire::strings::mqtt_name;
use crate::wire::strings::spec_encode_filters;
use crate::wire::strings::spec_encode_optional_binary;
use crate::wire::strings::spec_encode_optional_string;
use crate::wire::strings::spec_encode_string;
use crate::wire::strings::spec_parse_filters;
use crate::wire::strings::spec_take_optional_binary;
use crate::wire::strings::spec_take_optional_string;
use crate::wire::strings::spec_take_string;
use crate::wire::strings::str_has_wildcard;
use crate::wire::strings::strings_view;
use crate::wire::write::bit;
use crate::wire::write::concat_all;
use crate::wire::write::spec_encode_binary;
use crate::wire::write::spec_encode_u16;

verus! {

/// The answer of a server to a CONNECT.
#[derive(Clone, Copy, Debug, PartialEq, Eq, Structural)]
pub struct MConnack {
    pub session_present: bool,
    pub connect_return_code: MConnectReturnCode,
}

/// A CONNECT, as plain data.
pub struct ConnectView {
    pub protocol_name: Seq<char>,
    pub protocol_level: u8,
    pub clean_session: bool,
    pub will: Option<LastWillView>,
    pub username: Option<Seq<char>>,
    pub password: Option<Seq<u8>>,
    pub keep_alive: u16,
    pub client_id: Seq<char>,
}

/// The first packet of a client: who it is and how it wants to be served.
#[derive(Debug, Clone, PartialEq, Eq)]
pub struct MConnect {
    pub protocol_name: MqttString,
    pub protocol_level: u8,
    pub clean_session: bool,
    pub will: Option<MLastWill>,
    pub username: Option<MqttString>,
    pub password: Option<MqttBytes>,
    pub keep_alive: u16,
    pub client_id: MqttString,
}

impl View for MConnect {
    type V = ConnectView;

    open spec fn view(&self) -> ConnectView {
        ConnectView {
            protocol_name: self.protocol_name@,
            protocol_level: self.protocol_level,
            clean_session: self.clean_session,
            will: match self.will {
                Some(w) => Some(w@),
                None => None,
            },
            username: match self.username {
                Some(u) => Some(u@),
                None => None,
            },
            password: match self.password {
                Some(p) => Some(p@),
                None => None,
            },
            keep_alive: self.keep_alive,
            client_id: self.client_id@,
        }
    }
}

/// A PUBLISH, as plain data.
pub struct PublishView {
    pub dup: bool,
    pub qos: MQualityOfService,
    pub retain: bool,
    pub topic_name: Seq<char>,
    pub id: Option<u16>,
    pub payload: Seq<u8>,
}

/// A message on its way to or from a client.
#[derive(Debug, Clone, PartialEq, Eq)]
pub struct MPublish {
    pub dup: bool,
    pub qos: MQualityOfService,
    pub retain: bool,
    pub topic_name: MqttString,
    /// The packet identifier, present exactly when `qos` is above
    /// `AtMostOnce`.
    pub id: Option<u16>,
    pub payload: Vec<u8>,
}

impl View for MPublish {
    type V = PublishView;

    open spec fn view(&self) -> PublishView {
        PublishView {
            dup: self.dup,
            qos: self.qos,
            retain: self.retain,
            topic_name: self.topic_name@,
            id: self.id,
            payload: self.payload@,
        }
    }
}

/// A SUBSCRIBE, as plain data.
pub struct SubscribeView {
    pub id: u16,
    pub subscriptions: Seq<SubscriptionRequestView>,
}

/// The wish of a client to receive what is published under some filters.
#[derive(Debug, Clone, PartialEq, Eq)]
pub struct MSubscribe {
    pub id: u16,
    pub subscriptions: MSubscriptionRequests,
}

impl View for MSubscribe {
    type V = SubscribeView;

    open spec fn view(&self) -> SubscribeView {
        SubscribeView { id: self.id, subscriptions: self.subscriptions@ }
    }
}

/// A SUBACK, as plain data.
pub struct SubackView {
    pub id: u16,
    pub subscription_acks: Seq<MSubscriptionAck>,
}

/// The answer of a server to a SUBSCRIBE: one grant for each request, in
/// the order of the requests.
#[derive(Debug, Clone, PartialEq, Eq)]
pub struct MSuback {
    pub id: u16,
    pub subscription_acks: Vec<MSubscriptionAck>,
}

impl View for MSuback {
    type V = SubackView;

    open spec fn view(&self) -> SubackView {
        SubackView { id: self.id, subscription_acks: self.subscription_acks@ }
    }
}

/// An UNSUBSCRIBE, as plain data.
pub struct UnsubscribeView {
    pub id: u16,
    pub unsubscriptions: Seq<Seq<char>>,
}

/// The wish of a client to end its subscriptions to some filters.
#[derive(Debug, Clone, PartialEq, Eq)]
pub struct MUnsubscribe {
    pub id: u16,
    pub unsubscriptions: Vec<MqttString>,
}

impl View for MUnsubscribe {
    type V = UnsubscribeView;

    open spec fn view(&self) -> UnsubscribeView {
        UnsubscribeView { id: self.id, unsubscriptions: strings_view(self.unsubscriptions@) }
    }
}

/// A control packet, as plain data.
pub enum PacketView {
    Connect(ConnectView),
    Connack(MConnack),
    Publish(PublishView),
    Puback { id: u16 },
    Pubrec { id: u16 },
    Pubrel { id: u16 },
    Pubcomp { id: u16 },
    Subscribe(SubscribeView),
    Suback(SubackView),
    Unsubscribe(UnsubscribeView),
    Unsuback { id: u16 },
    Pingreq,
    Pingresp,
    Disconnect,
}

/// A control packet of MQTT 3.1.1.
#[derive(Debug, Clone, PartialEq, Eq)]
pub enum MPacket {
    Connect(MConnect),
    Connack(MConnack),
    Publish(MPublish),
    Puback { id: u16 },
    Pubrec { id: u16 },
    Pubrel { id: u16 },
    Pubcomp { id: u16 },
    Subscribe(MSubscribe),
    Suback(MSuback),
    Unsubscribe(MUnsubscribe),
    Unsuback { id: u16 },
    Pingreq,
    Pingresp,
    Disconnect,
}

impl View for MPacket {
    type V = PacketView;

    open spec fn view(&self) -> PacketView {
        match self {
            MPacket::Connect(p) => PacketView::Connect(p@),
            MPacket::Connack(p) => PacketView::Connack(*p),
            MPacket::Publish(p) => PacketView::Publish(p@),
            MPacket::Puback { id } => PacketView::Puback { id: *id },
            MPacket::Pubrec { id } => PacketView::Pubrec { id: *id },
            MPacket::Pubrel { id } => PacketView::Pubrel { id: *id },
            MPacket::Pubcomp { id } => PacketView::Pubcomp { id: *id },
            MPacket::Subscribe(p) => PacketView::Subscribe(p@),
            MPacket::Suback(p) => PacketView::Suback(p@),
            MPacket::Unsubscribe(p) => PacketView::Unsubscribe(p@),
            MPacket::Unsuback { id } => PacketView::Unsuback { id: *id },
            MPacket::Pingreq => PacketView::Pingreq,
            MPacket::Pingresp => PacketView::Pingresp,
            MPacket::Disconnect => PacketView::Disconnect,
        }
    }
}

// ---------------------------------------------------------------------
// CONNACK
// ---------------------------------------------------------------------
pub open spec fn spec_encode_connack(p: MConnack) -> Seq<u8> {
    seq![bit(p.session_present) as u8, p.connect_return_code.spec_to_byte()]
}

/// The body of a CONNACK: the acknowledge flags, of which only the lowest
/// bit may be set, and the return code.
#[verifier::opaque]
pub open spec fn spec_parse_connack(body: Seq<u8>) -> Result<MConnack, DecodeError> {
    if body.len() < 2 {
        Err(DecodeError::Incomplete)
    } else if body[0] > 1 {
        Err(DecodeError::MalformedPacket(MalformedReason::ReservedBitsSet))
    } else {
        match MConnectReturnCode::spec_from_byte(body[1]) {
            None => Err(DecodeError::MalformedPacket(MalformedReason::InvalidValue)),
            Some(code) => if body.len() > 2 {
                Err(DecodeError::MalformedPacket(MalformedReason::TrailingBytes))
            } else {
                Ok(MConnack { session_present: body[0] == 1, connect_return_code: code })
            },
        }
    }
}

fn parse_connack(input: &mut Reader<'_>) -> (r: MResult<MConnack>)
    ensures
        match spec_parse_connack(old(input)@) {
            Ok(p) => r == Ok::<MConnack, DecodeError>(p),
            Err(e) => r == Err::<MConnack, DecodeError>(e),
        },
{
    proof {
        reveal(spec_parse_connack);
    }
    if input.len() < 2 {
        return Err(DecodeError::Incomplete);
    }
    let flags: u8 = input.take_u8()?;
    let code: u8 = input.take_u8()?;
    if flags > 1 {
        return Err(DecodeError::MalformedPacket(MalformedReason::ReservedBitsSet));
    }
    match MConnectReturnCode::from_byte(code) {
        None => Err(DecodeError::MalformedPacket(MalformedReason::InvalidValue)),
        Some(connect_return_code) => {
            if !input.is_empty() {
                return Err(DecodeError::MalformedPacket(MalformedReason::TrailingBytes));
            }
            Ok(MConnack { session_present: flags == 1, connect_return_code })
        },
    }
}

// ---------------------------------------------------------------------
// Packets that carry a packet identifier and nothing else
// ---------------------------------------------------------------------
/// The body of a packet that holds a packet identifier and nothing else.
#[verifier::opaque]
pub open spec fn spec_parse_id(body: Seq<u8>) -> Result<u16, DecodeError> {
    match spec_take_u16_be(body) {
        Err(e) => Err(e),
        Ok((id, rest)) => if rest.len() > 0 {
            Err(DecodeError::MalformedPacket(MalformedReason::TrailingBytes))
        } else {
            Ok(id)
        },
    }
}

fn parse_id(input: &mut Reader<'_>) -> (r: MResult<u16>)
    ensures
        match spec_parse_id(old(input)@) {
            Ok(p) => r == Ok::<u16, DecodeError>(p),
            Err(e) => r == Err::<u16, DecodeError>(e),
        },
{
    proof {
        reveal(spec_parse_id);
    }
    let id: u16 = input.take_u16_be()?;
    if !input.is_empty() {
        return Err(DecodeError::MalformedPacket(MalformedReason::TrailingBytes));
    }
    Ok(id)
}

// ---------------------------------------------------------------------
// PUBLISH
// ---------------------------------------------------------------------
/// The flag bits of a PUBLISH: DUP, the quality of service, RETAIN.
pub open spec fn spec_publish_flags(p: PublishView) -> u8 {
    (bit(p.dup) * 8 + p.qos.spec_to_byte() * 2 + bit(p.retain)) as u8
}

/// A PUBLISH is well-formed when its topic is an MQTT string without
/// wildcards and it carries a packet identifier, which is not zero,
/// exactly when its quality of service is above `AtMostOnce`.
pub open spec fn publish_wf(p: PublishView) -> bool {
    &&& is_mqtt_string(p.topic_name)
    &&& !has_wildcard(p.topic_name)
    &&& (p.id is Some <==> p.qos != MQualityOfService::AtMostOnce)
    &&& p.id != Some(0u16)
}

pub open spec fn spec_encode_publish(p: PublishView) -> Seq<u8> {
    spec_encode_string(p.topic_name) + (match p.id {
        Some(id) => spec_encode_u16(id),
        None => Seq::empty(),
    }) + p.payload
}

/// The body of a PUBLISH whose fixed header carried `flags`: the topic
/// name, the packet identifier where the quality of service is above
/// `AtMostOnce`, and the payload, which is everything that is left.
#[verifier::opaque]
pub open spec fn spec_parse_publish(flags: u8, body: Seq<u8>) -> Result<PublishView, DecodeError> {
    match MQualityOfService::spec_from_byte((flags / 2) % 4) {
        None => Err(DecodeError::InvalidFixedHeaderFlags),
        Some(qos) => match spec_take_string(body) {
            Err(e) => Err(e),
            Ok((topic_name, rest)) => if has_wildcard(topic_name) {
                Err(DecodeError::ProtocolError(ProtocolReason::WildcardInTopicName))
            } else if qos == MQualityOfService::AtMostOnce {
                Ok(
                    PublishView {
                        dup: (flags / 8) % 2 == 1,
                        qos,
                        retain: flags % 2 == 1,
                        topic_name,
                        id: None,
                        payload: rest,
                    },
                )
            } else {
                match spec_take_u16_be(rest) {
                    Err(e) => Err(e),
                    Ok((id, payload)) => if id == 0 {
                        Err(DecodeError::ProtocolError(ProtocolReason::ZeroPacketIdentifier))
                    } else {
                        Ok(
                            PublishView {
                                dup: (flags / 8) % 2 == 1,
                                qos,
                                retain: flags % 2 == 1,
                                topic_name,
                                id: Some(id),
                                payload,
                            },
                        )
                    },
                }
            },
        },
    }
}

fn parse_publish(flags: u8, input: &mut Reader<'_>) -> (r: MResult<MPublish>)
    ensures
        match spec_parse_publish(flags, old(input)@) {
            Ok(p) => r is Ok && r->Ok_0@ == p,
            Err(e) => r == Err::<MPublish, DecodeError>(e),
        },
{
    proof {
        reveal(spec_parse_publish);
    }
    let qos = match MQualityOfService::from_byte((flags / 2) % 4) {
        None => {
            return Err(DecodeError::InvalidFixedHeaderFlags);
        },
        Some(q) => q,
    };
    let topic_name = MqttString::parse(input)?;
    if str_has_wildcard(topic_name.as_str()) {
        return Err(DecodeError::ProtocolError(ProtocolReason::WildcardInTopicName));
    }
    let id: Option<u16> = match qos {
        MQualityOfService::AtMostOnce => None,
        _ => {
            let id: u16 = input.take_u16_be()?;
            if id == 0 {
                return Err(DecodeError::ProtocolError(ProtocolReason::ZeroPacketIdentifier));
            }
            Some(id)
        },
    };
    let payload = input.take_rest();
    Ok(MPublish { dup: (flags / 8) % 2 == 1, qos, retain: flags % 2 == 1, topic_name, id, payload })
}

// ---------------------------------------------------------------------
// SUBSCRIBE
// ---------------------------------------------------------------------
pub open spec fn spec_encode_request(x: SubscriptionRequestView) -> Seq<u8> {
    spec_encode_string(x.topic) + seq![x.qos.spec_to_byte()]
}

/// The encodings of the requests, one for each.
pub open spec fn request_parts(xs: Seq<SubscriptionRequestView>) -> Seq<Seq<u8>> {
    Seq::new(xs.len(), |i: int| spec_encode_request(xs[i]))
}

pub open spec fn spec_encode_requests(xs: Seq<SubscriptionRequestView>) -> Seq<u8> {
    concat_all(request_parts(xs))
}

/// One request: a topic filter and a byte that holds the requested quality
/// of service and nothing else.
pub open spec fn spec_take_request(s: Seq<u8>) -> Result<
    (SubscriptionRequestView, Seq<u8>),
    DecodeError,
> {
    match spec_take_string(s) {
        Err(e) => Err(e),
        Ok((topic, r1)) => match spec_take_u8(r1) {
            Err(e) => Err(e),
            Ok((q, r2)) => match MQualityOfService::spec_from_byte(q) {
                None => Err(DecodeError::MalformedPacket(MalformedReason::InvalidValue)),
                Some(qos) => Ok((SubscriptionRequestView { topic, qos }, r2)),
            },
        },
    }
}

/// Requests until the input ends.
pub open spec fn spec_parse_requests(s: Seq<u8>) -> Result<Seq<SubscriptionRequestView>, DecodeError>
    decreases s.len(),
{
    if s.len() == 0 {
        Ok(Seq::empty())
    } else {
        match spec_take_request(s) {
            Err(e) => Err(e),
            Ok((x, rest)) => match spec_parse_requests(rest) {
                Err(e) => Err(e),
                Ok(xs) => Ok(seq![x] + xs),
            },
        }
    }
}

pub open spec fn spec_encode_subscribe(p: SubscribeView) -> Seq<u8> {
    spec_encode_u16(p.id) + spec_encode_requests(p.subscriptions)
}

/// The body of a SUBSCRIBE: the packet identifier and at least one request.
#[verifier::opaque]
pub open spec fn spec_parse_subscribe(body: Seq<u8>) -> Result<SubscribeView, DecodeError> {
    match spec_take_u16_be(body) {
        Err(e) => Err(e),
        Ok((id, rest)) => match spec_parse_requests(rest) {
            Err(e) => Err(e),
            Ok(xs) => if xs.len() == 0 {
                Err(DecodeError::ProtocolError(ProtocolReason::EmptyPayload))
            } else {
                Ok(SubscribeView { id, subscriptions: xs })
            },
        },
    }
}

fn parse_subscribe(input: &mut Reader<'_>) -> (r: MResult<MSubscribe>)
    ensures
        match spec_parse_subscribe(old(input)@) {
            Ok(p) => r is Ok && r->Ok_0@ == p,
            Err(e) => r == Err::<MSubscribe, DecodeError>(e),
        },
{
    proof {
        reveal(spec_parse_subscribe);
    }
    let id: u16 = input.take_u16_be()?;
    let ghost start = input@;
    let mut requests: Vec<MSubscriptionRequest> = Vec::new();
    let ghost shown = Seq::<SubscriptionRequestView>::empty();
    while !input.is_empty()
        invariant
            spec_take_u16_be(old(input)@) == Ok::<(u16, Seq<u8>), DecodeError>((id, start)),
            shown == Seq::new(requests@.len(), |i: int| requests@[i]@),
            spec_parse_requests(start) == (match spec_parse_requests(input@) {
                Ok(xs) => Ok::<Seq<SubscriptionRequestView>, DecodeError>(shown + xs),
                Err(e) => Err(e),
            }),
        decreases input@.len(),
    {
        proof {
            reveal(spec_parse_subscribe);
        }
        let topic = MqttString::parse(input)?;
        let q: u8 = input.take_u8()?;
        let qos = match MQualityOfService::from_byte(q) {
            None => {
                return Err(DecodeError::MalformedPacket(MalformedReason::InvalidValue));
            },
            Some(level) => level,
        };
        let request = MSubscriptionRequest { topic, qos };
        proof {
            let x = request@;
            let next = shown.push(x);
            match spec_parse_requests(input@) {
                Ok(xs) => {
                    assert(shown + (seq![x] + xs) =~= next + xs);
                },
                Err(e) => {},
            }
            shown = next;
        }
        requests.push(request);
        proof {
            assert(shown =~= Seq::new(requests@.len(), |i: int| requests@[i]@));
        }
    }
    proof {
        assert(shown + Seq::<SubscriptionRequestView>::empty() =~= shown);
    }
    if requests.len() == 0 {
        return Err(DecodeError::ProtocolError(ProtocolReason::EmptyPayload));
    }
    Ok(MSubscribe { id, subscriptions: MSubscriptionRequests { requests } })
}

// ---------------------------------------------------------------------
// SUBACK
// ---------------------------------------------------------------------
pub open spec fn spec_encode_acks(acks: Seq<MSubscriptionAck>) -> Seq<u8> {
    Seq::new(acks.len(), |i: int| acks[i].spec_to_byte())
}

/// Grants until the input ends, one byte each.
pub open spec fn spec_parse_acks(s: Seq<u8>) -> Result<Seq<MSubscriptionAck>, DecodeError>
    decreases s.len(),
{
    if s.len() == 0 {
        Ok(Seq::empty())
    } else {
        match MSubscriptionAck::spec_from_byte(s[0]) {
            None => Err(DecodeError::MalformedPacket(MalformedReason::InvalidValue)),
            Some(a) => match spec_parse_acks(s.skip(1)) {
                Err(e) => Err(e),
                Ok(rest) => Ok(seq![a] + rest),
            },
        }
    }
}

pub open spec fn spec_encode_suback(p: SubackView) -> Seq<u8> {
    spec_encode_u16(p.id) + spec_encode_acks(p.subscription_acks)
}

/// The body of a SUBACK: the packet identifier and the grants.
#[verifier::opaque]
pub open spec fn spec_parse_suback(body: Seq<u8>) -> Result<SubackView, DecodeError> {
    match spec_take_u16_be(body) {
        Err(e) => Err(e),
        Ok((id, rest)) => match spec_parse_acks(rest) {
            Err(e) => Err(e),
            Ok(acks) => Ok(SubackView { id, subscription_acks: acks }),
        },
    }
}

fn parse_suback(input: &mut Reader<'_>) -> (r: MResult<MSuback>)
    ensures
        match spec_parse_suback(old(input)@) {
            Ok(p) => r is Ok && r->Ok_0@ == p,
            Err(e) => r == Err::<MSuback, DecodeError>(e),
        },
{
    proof {
        reveal(spec_parse_suback);
    }
    let id: u16 = input.take_u16_be()?;
    let ghost start = input@;
    let mut acks: Vec<MSubscriptionAck> = Vec::new();
    while !input.is_empty()
        invariant
            spec_take_u16_be(old(input)@) == Ok::<(u16, Seq<u8>), DecodeError>((id, start)),
            spec_parse_acks(start) == (match spec_parse_acks(input@) {
                Ok(xs) => Ok::<Seq<MSubscriptionAck>, DecodeError>(acks@ + xs),
                Err(e) => Err(e),
            }),
        decreases input@.len(),
    {
        proof {
            reveal(spec_parse_suback);
        }
        let b: u8 = input.take_u8()?;
        let ack = match MSubscriptionAck::from_byte(b) {
            None => {
                return Err(DecodeError::MalformedPacket(MalformedReason::InvalidValue));
            },
            Some(a) => a,
        };
        proof {
            match spec_parse_acks(input@) {
                Ok(xs) => {
                    assert(acks@ + (seq![ack] + xs) =~= acks@.push(ack) + xs);
                },
                Err(e) => {},
            }
        }
        acks.push(ack);
    }
    proof {
        assert(acks@ + Seq::<MSubscriptionAck>::empty() =~= acks@);
    }
    Ok(MSuback { id, subscription_acks: acks })
}

// ---------------------------------------------------------------------
// UNSUBSCRIBE
// ---------------------------------------------------------------------
pub open spec fn spec_encode_unsubscribe(p: UnsubscribeView) -> Seq<u8> {
    spec_encode_u16(p.id) + spec_encode_filters(p.unsubscriptions)
}

/// The body of an UNSUBSCRIBE: the packet identifier and at least one
/// topic filter.
#[verifier::opaque]
pub open spec fn spec_parse_unsubscribe(body: Seq<u8>) -> Result<UnsubscribeView, DecodeError> {
    match spec_take_u16_be(body) {
        Err(e) => Err(e),
        Ok((id, rest)) => match spec_parse_filters(rest) {
            Err(e) => Err(e),
            Ok(xs) => if xs.len() == 0 {
                Err(DecodeError::ProtocolError(ProtocolReason::EmptyPayload))
            } else {
                Ok(UnsubscribeView { id, unsubscriptions: xs })
            },
        },
    }
}

fn parse_unsubscribe(input: &mut Reader<'_>) -> (r: MResult<MUnsubscribe>)
    ensures
        match spec_parse_unsubscribe(old(input)@) {
            Ok(p) => r is Ok && r->Ok_0@ == p,
            Err(e) => r == Err::<MUnsubscribe, DecodeError>(e),
        },
{
    proof {
        reveal(spec_parse_unsubscribe);
    }
    let id: u16 = input.take_u16_be()?;
    let ghost start = input@;
    let mut filters: Vec<MqttString> = Vec::new();
    while !input.is_empty()
        invariant
            spec_take_u16_be(old(input)@) == Ok::<(u16, Seq<u8>), DecodeError>((id, start)),
            spec_parse_filters(start) == (match spec_parse_filters(input@) {
                Ok(xs) => Ok::<Seq<Seq<char>>, DecodeError>(strings_view(filters@) + xs),
                Err(e) => Err(e),
            }),
        decreases input@.len(),
    {
        let ghost shown = strings_view(filters@);
        proof {
            reveal(spec_parse_unsubscribe);
        }
        let filter = MqttString::parse(input)?;
        proof {
            match spec_parse_filters(input@) {
                Ok(xs) => {
                    assert(shown + (seq![filter@] + xs) =~= shown.push(filter@) + xs);
                },
                Err(e) => {},
            }
        }
        filters.push(filter);
        proof {
            assert(strings_view(filters@) =~= shown.push(filters@.last()@));
        }
    }
    proof {
        assert(strings_view(filters@) + Seq::<Seq<char>>::empty() =~= strings_view(filters@));
    }
    if filters.len() == 0 {
        return Err(DecodeError::ProtocolError(ProtocolReason::EmptyPayload));
    }
    Ok(MUnsubscribe { id, unsubscriptions: filters })
}

// ---------------------------------------------------------------------
// CONNECT
// ---------------------------------------------------------------------
/// The connect flags: user name, password, will retain, will quality of
/// service, will, clean session, and a reserved bit that stays zero.
#[verifier::opaque]
pub open spec fn spec_connect_flags(p: ConnectView) -> u8 {
    (bit(p.username is Some) * 128 + bit(p.password is Some) * 64 + (match p.will {
        Some(w) => bit(w.retain) * 32 + w.qos.spec_to_byte() * 8 + 4,
        None => 0,
    }) + bit(p.clean_session) * 2) as u8
}

pub open spec fn spec_encode_will(will: Option<LastWillView>) -> Seq<u8> {
    match will {
        Some(w) => spec_encode_string(w.topic) + spec_encode_binary(w.payload),
        None => Seq::empty(),
    }
}

/// What a CONNECT holds up to its client identifier.
pub open spec fn spec_encode_connect_head(p: ConnectView) -> Seq<u8> {
    spec_encode_string(p.protocol_name) + seq![p.protocol_level, spec_connect_flags(p)]
        + spec_encode_u16(p.keep_alive) + spec_encode_string(p.client_id)
}

pub open spec fn spec_encode_connect(p: ConnectView) -> Seq<u8> {
    spec_encode_connect_head(p) + spec_encode_will(p.will) + spec_encode_optional_string(
        p.username,
    ) + spec_encode_optional_binary(p.password)
}

/// A CONNECT is well-formed when it names MQTT at level 4, its texts are
/// MQTT strings, its data is short enough, and it carries no password
/// without a user name.
pub open spec fn connect_wf(p: ConnectView) -> bool {
    &&& p.protocol_name == mqtt_name()
    &&& p.protocol_level == 4
    &&& is_mqtt_string(p.client_id)
    &&& (p.will matches Some(w) ==> is_mqtt_string(w.topic) && w.payload.len() <= 65535)
    &&& (p.username matches Some(u) ==> is_mqtt_string(u))
    &&& (p.password matches Some(b) ==> b.len() <= 65535)
    &&& (p.password is Some ==> p.username is Some)
}

/// The will topic and payload, where the connect flags announce a will.
pub open spec fn spec_take_will(flags: u8, s: Seq<u8>) -> Result<
    (Option<LastWillView>, Seq<u8>),
    DecodeError,
> {
    if (flags / 4) % 2 == 1 {
        match spec_take_string(s) {
            Err(e) => Err(e),
            Ok((topic, r1)) => match spec_take_binary(r1) {
                Err(e) => Err(e),
                Ok((payload, r2)) => match MQualityOfService::spec_from_byte((flags / 8) % 4) {
                    None => Err(DecodeError::MalformedPacket(MalformedReason::InvalidValue)),
                    Some(qos) => Ok(
                        (Some(LastWillView { topic, payload, qos, retain: (flags / 32) % 2 == 1 }), r2),
                    ),
                },
            },
        }
    } else {
        Ok((None, s))
    }
}

/// Whether connect flags contradict themselves: will details without a
/// will, or a password without a user name.
pub open spec fn connect_flags_inconsistent(flags: u8) -> bool {
    ||| ((flags / 4) % 2 == 0 && ((flags / 8) % 4 != 0 || (flags / 32) % 2 == 1))
    ||| ((flags / 64) % 2 == 1 && flags / 128 == 0)
}

/// What follows the keep-alive in a CONNECT: the client identifier, the
/// will, the user name and the password, as far as the flags announce them.
#[verifier::opaque]
pub open spec fn spec_parse_connect_payload(flags: u8, keep_alive: u16, s: Seq<u8>) -> Result<
    ConnectView,
    DecodeError,
> {
    match spec_take_string(s) {
        Err(e) => Err(e),
        Ok((client_id, r1)) => match spec_take_will(flags, r1) {
            Err(e) => Err(e),
            Ok((will, r2)) => match spec_take_optional_string(flags / 128 == 1, r2) {
                Err(e) => Err(e),
                Ok((username, r3)) => match spec_take_optional_binary((flags / 64) % 2 == 1, r3) {
                    Err(e) => Err(e),
                    Ok((password, r4)) => if r4.len() > 0 {
                        Err(DecodeError::MalformedPacket(MalformedReason::TrailingBytes))
                    } else {
                        Ok(
                            ConnectView {
                                protocol_name: mqtt_name(),
                                protocol_level: 4,
                                clean_session: (flags / 2) % 2 == 1,
                                will,
                                username,
                                password,
                                keep_alive,
                                client_id,
                            },
                        )
                    },
                },
            },
        }
    }
}

/// The body of a CONNECT: protocol name and level, connect flags,
/// keep-alive, and the payload that the flags announce.
#[verifier::opaque]
pub open spec fn spec_parse_connect(body: Seq<u8>) -> Result<ConnectView, DecodeError> {
    match spec_take_string(body) {
        Err(e) => Err(e),
        Ok((name, r1)) => match spec_take_u8(r1) {
            Err(e) => Err(e),
            Ok((level, r2)) => match spec_take_u8(r2) {
                Err(e) => Err(e),
                Ok((flags, r3)) => match spec_take_u16_be(r3) {
                    Err(e) => Err(e),
                    Ok((keep_alive, r4)) => if name != mqtt_name() || level != 4 {
                        Err(DecodeError::MalformedPacket(MalformedReason::UnsupportedProtocol))
                    } else if flags % 2 != 0 {
                        Err(DecodeError::MalformedPacket(MalformedReason::ReservedBitsSet))
                    } else if (flags / 8) % 4 == 3 {
                        Err(DecodeError::MalformedPacket(MalformedReason::InvalidValue))
                    } else if connect_flags_inconsistent(flags) {
                        Err(DecodeError::ProtocolError(ProtocolReason::InconsistentConnectFlags))
                    } else {
                        spec_parse_connect_payload(flags, keep_alive, r4)
                    },
                },
            },
        },
    }
}

fn parse_connect(input: &mut Reader<'_>) -> (r: MResult<MConnect>)
    ensures
        match spec_parse_connect(old(input)@) {
            Ok(p) => r is Ok && r->Ok_0@ == p,
            Err(e) => r == Err::<MConnect, DecodeError>(e),
        },
{
    proof {
        reveal(spec_parse_connect);
        reveal(spec_parse_connect_payload);
    }
    let protocol_name = MqttString::parse(input)?;
    let protocol_level: u8 = input.take_u8()?;
    let flags: u8 = input.take_u8()?;
    let keep_alive: u16 = input.take_u16_be()?;
    proof {
        reveal_strlit("MQTT");
        assert("MQTT"@ =~= mqtt_name());
    }
    if !protocol_name.equals_str("MQTT") || protocol_level != 4 {
        return Err(DecodeError::MalformedPacket(MalformedReason::UnsupportedProtocol));
    }
    if flags % 2 != 0 {
        return Err(DecodeError::MalformedPacket(MalformedReason::ReservedBitsSet));
    }
    let will_flag = (flags / 4) % 2 == 1;
    let will_level: u8 = (flags / 8) % 4;
    let will_retain = (flags / 32) % 2 == 1;
    let has_username = flags / 128 == 1;
    let has_password = (flags / 64) % 2 == 1;
    let will_qos = match MQualityOfService::from_byte(will_level) {
        None => {
            return Err(DecodeError::MalformedPacket(MalformedReason::InvalidValue));
        },
        Some(level) => level,
    };
    if (!will_flag && (will_level != 0 || will_retain)) || (has_password && !has_username) {
        return Err(DecodeError::ProtocolError(ProtocolReason::InconsistentConnectFlags));
    }
    let client_id = MqttString::parse(input)?;
    let will = if will_flag {
        let topic = MqttString::parse(input)?;
        let payload = MqttBytes::parse(input)?;
        Some(MLastWill { topic, payload, qos: will_qos, retain: will_retain })
    } else {
        None
    };
    let username = if has_username {
        Some(MqttString::parse(input)?)
    } else {
        None
    };
    let password = if has_password {
        Some(MqttBytes::parse(input)?)
    } else {
        None
    };
    if !input.is_empty() {
        return Err(DecodeError::MalformedPacket(MalformedReason::TrailingBytes));
    }
    Ok(
        MConnect {
            protocol_name,
            protocol_level,
            clean_session: (flags / 2) % 2 == 1,
            will,
            username,
            password,
            keep_alive,
            client_id,
        },
    )
}

// ---------------------------------------------------------------------
// Whole packets
// ---------------------------------------------------------------------
/// A body that must be empty.
pub open spec fn spec_parse_empty(body: Seq<u8>, packet: PacketView) -> Result<PacketView, DecodeError> {
    if body.len() == 0 {
        Ok(packet)
    } else {
        Err(DecodeError::MalformedPacket(MalformedReason::TrailingBytes))
    }
}

/// The packet whose fixed header is `header` and whose body is `body`. A
/// field that runs past the end of the body makes the packet malformed.
pub open spec fn spec_parse_body(header: FixedHeader, body: Seq<u8>) -> Result<PacketView, DecodeError> {
    match header.packet_type {
        PacketType::Connect => match spec_parse_connect(body) {
            Ok(p) => Ok(PacketView::Connect(p)),
            Err(e) => Err(spec_bounded(e)),
        },
        PacketType::Connack => match spec_parse_connack(body) {
            Ok(p) => Ok(PacketView::Connack(p)),
            Err(e) => Err(spec_bounded(e)),
        },
        PacketType::Publish => match spec_parse_publish(header.flags, body) {
            Ok(p) => Ok(PacketView::Publish(p)),
            Err(e) => Err(spec_bounded(e)),
        },
        PacketType::Puback => match spec_parse_id(body) {
            Ok(id) => Ok(PacketView::Puback { id }),
            Err(e) => Err(spec_bounded(e)),
        },
        PacketType::Pubrec => match spec_parse_id(body) {
            Ok(id) => Ok(PacketView::Pubrec { id }),
            Err(e) => Err(spec_bounded(e)),
        },
        PacketType::Pubrel => match spec_parse_id(body) {
            Ok(id) => Ok(PacketView::Pubrel { id }),
            Err(e) => Err(spec_bounded(e)),
        },
        PacketType::Pubcomp => match spec_parse_id(body) {
            Ok(id) => Ok(PacketView::Pubcomp { id }),
            Err(e) => Err(spec_bounded(e)),
        },
        PacketType::Subscribe => match spec_parse_subscribe(body) {
            Ok(p) => Ok(PacketView::Subscribe(p)),
            Err(e) => Err(spec_bounded(e)),
        },
        PacketType::Suback => match spec_parse_suback(body) {
            Ok(p) => Ok(PacketView::Suback(p)),
            Err(e) => Err(spec_bounded(e)),
        },
        PacketType::Unsubscribe => match spec_parse_unsubscribe(body) {
            Ok(p) => Ok(PacketView::Unsubscribe(p)),
            Err(e) => Err(spec_bounded(e)),
        },
        PacketType::Unsuback => match spec_parse_id(body) {
            Ok(id) => Ok(PacketView::Unsuback { id }),
            Err(e) => Err(spec_bounded(e)),
        },
        PacketType::Pingreq => spec_parse_empty(body, PacketView::Pingreq),
        PacketType::Pingresp => spec_parse_empty(body, PacketView::Pingresp),
        PacketType::Disconnect => spec_parse_empty(body, PacketView::Disconnect),
        PacketType::Auth => Err(DecodeError::MalformedPacket(MalformedReason::UnknownPacketType)),
    }
}

/// The packet at the start of `s`, and what follows it. Input that ends
/// before the packet does is incomplete.
pub open spec fn spec_parse_packet(s: Seq<u8>) -> Result<(PacketView, Seq<u8>), DecodeError> {
    match spec_take_fixed_header(s) {
        Err(e) => Err(e),
        Ok((header, rest)) => if rest.len() < header.remaining_length {
            Err(DecodeError::Incomplete)
        } else {
            match spec_parse_body(header, rest.take(header.remaining_length as int)) {
                Err(e) => Err(e),
                Ok(p) => Ok((p, rest.skip(header.remaining_length as int))),
            }
        },
    }
}

/// The packet that `s` holds and nothing else.
pub open spec fn spec_parse_complete(s: Seq<u8>) -> Result<PacketView, DecodeError> {
    match spec_parse_packet(s) {
        Err(e) => Err(e),
        Ok((p, rest)) => if rest.len() > 0 {
            Err(DecodeError::MalformedPacket(MalformedReason::TrailingBytes))
        } else {
            Ok(p)
        },
    }
}

fn parse_body(header: FixedHeader, body: &mut Reader<'_>) -> (r: MResult<MPacket>)
    ensures
        match spec_parse_body(header, old(body)@) {
            Ok(p) => r is Ok && r->Ok_0@ == p,
            Err(e) => r == Err::<MPacket, DecodeError>(e),
        },
{
    match header.packet_type {
        PacketType::Connect => match parse_connect(body) {
            Ok(p) => Ok(MPacket::Connect(p)),
            Err(e) => Err(bounded(e)),
        },
        PacketType::Connack => match parse_connack(body) {
            Ok(p) => Ok(MPacket::Connack(p)),
            Err(e) => Err(bounded(e)),
        },
        PacketType::Publish => match parse_publish(header.flags, body) {
            Ok(p) => Ok(MPacket::Publish(p)),
            Err(e) => Err(bounded(e)),
        },
        PacketType::Puback => match parse_id(body) {
            Ok(id) => Ok(MPacket::Puback { id }),
            Err(e) => Err(bounded(e)),
        },
        PacketType::Pubrec => match parse_id(body) {
            Ok(id) => Ok(MPacket::Pubrec { id }),
            Err(e) => Err(bounded(e)),
        },
        PacketType::Pubrel => match parse_id(body) {
            Ok(id) => Ok(MPacket::Pubrel { id }),
            Err(e) => Err(bounded(e)),
        },
        PacketType::Pubcomp => match parse_id(body) {
            Ok(id) => Ok(MPacket::Pubcomp { id }),
            Err(e) => Err(bounded(e)),
        },
        PacketType::Subscribe => match parse_subscribe(body) {
            Ok(p) => Ok(MPacket::Subscribe(p)),
            Err(e) => Err(bounded(e)),
        },
        PacketType::Suback => match parse_suback(body) {
            Ok(p) => Ok(MPacket::Suback(p)),
            Err(e) => Err(bounded(e)),
        },
        PacketType::Unsubscribe => match parse_unsubscribe(body) {
            Ok(p) => Ok(MPacket::Unsubscribe(p)),
            Err(e) => Err(bounded(e)),
        },
        PacketType::Unsuback => match parse_id(body) {
            Ok(id) => Ok(MPacket::Unsuback { id }),
            Err(e) => Err(bounded(e)),
        },
        PacketType::Pingreq => if body.is_empty() {
            Ok(MPacket::Pingreq)
        } else {
            Err(DecodeError::MalformedPacket(MalformedReason::TrailingBytes))
        },
        PacketType::Pingresp => if body.is_empty() {
            Ok(MPacket::Pingresp)
        } else {
            Err(DecodeError::MalformedPacket(MalformedReason::TrailingBytes))
        },
        PacketType::Disconnect => if body.is_empty() {
            Ok(MPacket::Disconnect)
        } else {
            Err(DecodeError::MalformedPacket(MalformedReason::TrailingBytes))
        },
        PacketType::Auth => Err(DecodeError::MalformedPacket(MalformedReason::UnknownPacketType)),
    }
}

impl MPacket {
    /// Decodes the packet at the start of the input and moves past it.
    pub fn parse(input: &mut Reader<'_>) -> (r: MResult<MPacket>)
        ensures
            reads_view(spec_parse_packet(old(input)@), old(input)@, r, final(input)@),
    {
        let mut cur = *input;
        let header = FixedHeader::parse(&mut cur)?;
        let mut body = cur.take_reader(header.remaining_length as usize)?;
        let packet = parse_body(header, &mut body)?;
        *input = cur;
        Ok(packet)
    }

    /// Decodes input that holds one packet and nothing else. Where the
    /// length in the fixed header was in shortest form, encoding the packet
    /// gives the input back.
    pub fn parse_complete(bytes: &[u8]) -> (r: MResult<MPacket>)
        ensures
            match spec_parse_complete(bytes@) {
                Ok(p) => r is Ok && r->Ok_0@ == p,
                Err(e) => r == Err::<MPacket, DecodeError>(e),
            },
            r is Ok && crate::wire::roundtrip::varint_is_shortest(bytes@.skip(1))
                ==> crate::v3::write::spec_encode_packet(r->Ok_0@) == bytes@,
    {
        let mut input = Reader::new(bytes);
        let packet = MPacket::parse(&mut input)?;
        if !input.is_empty() {
            return Err(DecodeError::MalformedPacket(MalformedReason::TrailingBytes));
        }
        proof {
            if crate::wire::roundtrip::varint_is_shortest(bytes@.skip(1)) {
                crate::v3::roundtrip::lemma_packet_encode_decode(bytes@);
                assert(crate::v3::write::spec_encode_packet(packet@) + Seq::<u8>::empty()
                    =~= crate::v3::write::spec_encode_packet(packet@));
            }
        }
        Ok(packet)
    }
}

} // verus!
