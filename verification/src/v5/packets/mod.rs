//! The control packets of MQTT 5.0.

pub mod auth;
pub mod connack;
pub mod connect;
pub mod connect_laws;
pub mod disconnect;
pub mod pingreq;
pub mod pingresp;
pub mod puback;
pub mod pubcomp;
pub mod publish;
pub mod pubrec;
pub mod pubrel;
pub mod reason_tail;
pub mod suback;
pub mod subscribe;
pub mod unsuback;
pub mod unsubscribe;

use vstd::prelude::*;
use crate::v5::packets::auth::AuthView;
use crate::v5::packets::auth::MAuth;
use crate::v5::packets::auth::auth_is_canonical;
use crate::v5::packets::auth::auth_wf;
use crate::v5::packets::auth::lemma_auth_decode_encode;
use crate::v5::packets::auth::lemma_auth_encode_decode;
use crate::v5::packets::auth::spec_encode_auth;
use crate::v5::packets::auth::spec_parse_auth;
use crate::v5::packets::connack::ConnackView;
use crate::v5::packets::connack::MConnack;
use crate::v5::packets::connack::connack_is_canonical;
use crate::v5::packets::connack::connack_wf;
use crate::v5::packets::connack::lemma_connack_decode_encode;
use crate::v5::packets::connack::lemma_connack_encode_decode;
use crate::v5::packets::connack::spec_encode_connack;
use crate::v5::packets::connack::spec_parse_connack;
use crate::v5::packets::connect::ConnectView;
use crate::v5::packets::connect::MConnect;
use crate::v5::packets::connect::connect_wf;
use crate::v5::packets::connect::spec_encode_connect;
use crate::v5::packets::connect::spec_parse_connect;
use crate::v5::packets::connect_laws::connect_is_canonical;
use crate::v5::packets::connect_laws::lemma_connect_decode_encode;
use crate::v5::packets::connect_laws::lemma_connect_encode_decode;
use crate::v5::packets::disconnect::DisconnectView;
use crate::v5::packets::disconnect::MDisconnect;
use crate::v5::packets::disconnect::disconnect_is_canonical;
use crate::v5::packets::disconnect::disconnect_wf;
use crate::v5::packets::disconnect::lemma_disconnect_decode_encode;
use crate::v5::packets::disconnect::lemma_disconnect_encode_decode;
use crate::v5::packets::disconnect::spec_encode_disconnect;
use crate::v5::packets::disconnect::spec_parse_disconnect;
use crate::v5::packets::pingreq::MPingreq;
use crate::v5::packets::pingresp::MPingresp;
use crate::v5::packets::puback::MPuback;
use crate::v5::packets::puback::PubackView;
use crate::v5::packets::puback::lemma_puback_decode_encode;
use crate::v5::packets::puback::lemma_puback_encode_decode;
use crate::v5::packets::puback::puback_is_canonical;
use crate::v5::packets::puback::puback_wf;
use crate::v5::packets::puback::spec_encode_puback;
use crate::v5::packets::puback::spec_parse_puback;
use crate::v5::packets::pubcomp::MPubcomp;
use crate::v5::packets::pubcomp::PubcompView;
use crate::v5::packets::pubcomp::lemma_pubcomp_decode_encode;
use crate::v5::packets::pubcomp::lemma_pubcomp_encode_decode;
use crate::v5::packets::pubcomp::pubcomp_is_canonical;
use crate::v5::packets::pubcomp::pubcomp_wf;
use crate::v5::packets::pubcomp::spec_encode_pubcomp;
use crate::v5::packets::pubcomp::spec_parse_pubcomp;
use crate::v5::packets::publish::MPublish;
use crate::v5::packets::publish::PublishView;
use crate::v5::packets::publish::lemma_publish_decode_encode;
use crate::v5::packets::publish::lemma_publish_encode_decode;
use crate::v5::packets::publish::lemma_publish_flags;
use crate::v5::packets::publish::publish_is_canonical;
use crate::v5::packets::publish::publish_wf;
use crate::v5::packets::publish::spec_encode_publish;
use crate::v5::packets::publish::spec_parse_publish;
use crate::v5::packets::publish::spec_publish_flags;
use crate::v5::packets::pubrec::MPubrec;
use crate::v5::packets::pubrec::PubrecView;
use crate::v5::packets::pubrec::lemma_pubrec_decode_encode;
use crate::v5::packets::pubrec::lemma_pubrec_encode_decode;
use crate::v5::packets::pubrec::pubrec_is_canonical;
use crate::v5::packets::pubrec::pubrec_wf;
use crate::v5::packets::pubrec::spec_encode_pubrec;
use crate::v5::packets::pubrec::spec_parse_pubrec;
use crate::v5::packets::pubrel::MPubrel;
use crate::v5::packets::pubrel::PubrelView;
use crate::v5::packets::pubrel::lemma_pubrel_decode_encode;
use crate::v5::packets::pubrel::lemma_pubrel_encode_decode;
use crate::v5::packets::pubrel::pubrel_is_canonical;
use crate::v5::packets::pubrel::pubrel_wf;
use crate::v5::packets::pubrel::spec_encode_pubrel;
use crate::v5::packets::pubrel::spec_parse_pubrel;
use crate::v5::packets::suback::MSuback;
use crate::v5::packets::suback::SubackView;
use crate::v5::packets::suback::lemma_suback_decode_encode;
use crate::v5::packets::suback::lemma_suback_encode_decode;
use crate::v5::packets::suback::spec_encode_suback;
use crate::v5::packets::suback::spec_parse_suback;
use crate::v5::packets::suback::suback_is_canonical;
use crate::v5::packets::suback::suback_wf;
use crate::v5::packets::subscribe::MSubscribe;
use crate::v5::packets::subscribe::SubscribeView;
use crate::v5::packets::subscribe::lemma_subscribe_decode_encode;
use crate::v5::packets::subscribe::lemma_subscribe_encode_decode;
use crate::v5::packets::subscribe::spec_encode_subscribe;
use crate::v5::packets::subscribe::spec_parse_subscribe;
use crate::v5::packets::subscribe::subscribe_is_canonical;
use crate::v5::packets::subscribe::subscribe_wf;
use crate::v5::packets::unsuback::MUnsuback;
use crate::v5::packets::unsuback::UnsubackView;
use crate::v5::packets::unsuback::lemma_unsuback_decode_encode;
use crate::v5::packets::unsuback::lemma_unsuback_encode_decode;
use crate::v5::packets::unsuback::spec_encode_unsuback;
use crate::v5::packets::unsuback::spec_parse_unsuback;
use crate::v5::packets::unsuback::unsuback_is_canonical;
use crate::v5::packets::unsuback::unsuback_wf;
use crate::v5::packets::unsubscribe::MUnsubscribe;
use crate::v5::packets::unsubscribe::UnsubscribeView;
use crate::v5::packets::unsubscribe::lemma_unsubscribe_decode_encode;
use crate::v5::packets::unsubscribe::lemma_unsubscribe_encode_decode;
use crate::v5::packets::unsubscribe::spec_encode_unsubscribe;
use crate::v5::packets::unsubscribe::spec_parse_unsubscribe;
use crate::v5::packets::unsubscribe::unsubscribe_is_canonical;
use crate::v5::packets::unsubscribe::unsubscribe_wf;
use crate::wire::fixed_header::FixedHeader;
use crate::wire::fixed_header::PacketType;
use crate::wire::fixed_header::fixed_header_wf;
use crate::wire::fixed_header::lemma_fixed_header_decode_encode;
use crate::wire::fixed_header::lemma_fixed_header_encode_decode;
use crate::wire::fixed_header::spec_encode_fixed_header;
use crate::wire::fixed_header::spec_take_fixed_header;
use crate::wire::read::DecodeError;
use crate::wire::read::MResult;
use crate::wire::read::MalformedReason;
use crate::wire::read::Reader;
use crate::wire::read::VARINT_MAX;
use crate::wire::read::bounded;
use crate::wire::read::reads_view;
use crate::wire::read::spec_bounded;
use crate::wire::roundtrip::lemma_varint_shape;
use crate::wire::roundtrip::varint_is_shortest;
use crate::wire::write::CountingWriter;
use crate::wire::write::MqttWriteError;
use crate::wire::write::VecWriter;
use crate::wire::write::WResult;
use crate::wire::write::WriteMqttPacket;
use crate::wire::write::write_outcome;

verus! {

/// A control packet, as plain data.
pub enum MqttPacketView {
    Auth(AuthView),
    Connack(ConnackView),
    Connect(ConnectView),
    Disconnect(DisconnectView),
    Puback(PubackView),
    Pubcomp(PubcompView),
    Publish(PublishView),
    Pubrec(PubrecView),
    Pubrel(PubrelView),
    Suback(SubackView),
    Subscribe(SubscribeView),
    Unsuback(UnsubackView),
    Unsubscribe(UnsubscribeView),
    Pingreq,
    Pingresp,
}

/// A control packet of MQTT 5.0.
#[derive(Debug, Clone, PartialEq, Eq)]
pub enum MqttPacket {
    Auth(MAuth),
    Connack(MConnack),
    Connect(MConnect),
    Disconnect(MDisconnect),
    Puback(MPuback),
    Pubcomp(MPubcomp),
    Publish(MPublish),
    Pubrec(MPubrec),
    Pubrel(MPubrel),
    Suback(MSuback),
    Subscribe(MSubscribe),
    Unsuback(MUnsuback),
    Unsubscribe(MUnsubscribe),
    Pingreq(MPingreq),
    Pingresp(MPingresp),
}

impl View for MqttPacket {
    type V = MqttPacketView;

    open spec fn view(&self) -> MqttPacketView {
        match self {
            MqttPacket::Auth(p) => MqttPacketView::Auth(p@),
            MqttPacket::Connack(p) => MqttPacketView::Connack(p@),
            MqttPacket::Connect(p) => MqttPacketView::Connect(p@),
            MqttPacket::Disconnect(p) => MqttPacketView::Disconnect(p@),
            MqttPacket::Puback(p) => MqttPacketView::Puback(p@),
            MqttPacket::Pubcomp(p) => MqttPacketView::Pubcomp(p@),
            MqttPacket::Publish(p) => MqttPacketView::Publish(p@),
            MqttPacket::Pubrec(p) => MqttPacketView::Pubrec(p@),
            MqttPacket::Pubrel(p) => MqttPacketView::Pubrel(p@),
            MqttPacket::Suback(p) => MqttPacketView::Suback(p@),
            MqttPacket::Subscribe(p) => MqttPacketView::Subscribe(p@),
            MqttPacket::Unsuback(p) => MqttPacketView::Unsuback(p@),
            MqttPacket::Unsubscribe(p) => MqttPacketView::Unsubscribe(p@),
            MqttPacket::Pingreq(_) => MqttPacketView::Pingreq,
            MqttPacket::Pingresp(_) => MqttPacketView::Pingresp,
        }
    }
}

/// The type of a packet.
pub open spec fn spec_packet_type(p: MqttPacketView) -> PacketType {
    match p {
        MqttPacketView::Auth(_) => PacketType::Auth,
        MqttPacketView::Connack(_) => PacketType::Connack,
        MqttPacketView::Connect(_) => PacketType::Connect,
        MqttPacketView::Disconnect(_) => PacketType::Disconnect,
        MqttPacketView::Puback(_) => PacketType::Puback,
        MqttPacketView::Pubcomp(_) => PacketType::Pubcomp,
        MqttPacketView::Publish(_) => PacketType::Publish,
        MqttPacketView::Pubrec(_) => PacketType::Pubrec,
        MqttPacketView::Pubrel(_) => PacketType::Pubrel,
        MqttPacketView::Suback(_) => PacketType::Suback,
        MqttPacketView::Subscribe(_) => PacketType::Subscribe,
        MqttPacketView::Unsuback(_) => PacketType::Unsuback,
        MqttPacketView::Unsubscribe(_) => PacketType::Unsubscribe,
        MqttPacketView::Pingreq => PacketType::Pingreq,
        MqttPacketView::Pingresp => PacketType::Pingresp,
    }
}

/// The flag bits in the fixed header of a packet.
pub open spec fn spec_header_flags(p: MqttPacketView) -> u8 {
    match p {
        MqttPacketView::Publish(x) => spec_publish_flags(x),
        MqttPacketView::Pubrel(_) | MqttPacketView::Subscribe(_) | MqttPacketView::Unsubscribe(_) => 2,
        _ => 0,
    }
}

/// What follows the fixed header of a packet.
pub open spec fn spec_encode_body(p: MqttPacketView) -> Seq<u8> {
    match p {
        MqttPacketView::Auth(x) => spec_encode_auth(x),
        MqttPacketView::Connack(x) => spec_encode_connack(x),
        MqttPacketView::Connect(x) => spec_encode_connect(x),
        MqttPacketView::Disconnect(x) => spec_encode_disconnect(x),
        MqttPacketView::Puback(x) => spec_encode_puback(x),
        MqttPacketView::Pubcomp(x) => spec_encode_pubcomp(x),
        MqttPacketView::Publish(x) => spec_encode_publish(x),
        MqttPacketView::Pubrec(x) => spec_encode_pubrec(x),
        MqttPacketView::Pubrel(x) => spec_encode_pubrel(x),
        MqttPacketView::Suback(x) => spec_encode_suback(x),
        MqttPacketView::Subscribe(x) => spec_encode_subscribe(x),
        MqttPacketView::Unsuback(x) => spec_encode_unsuback(x),
        MqttPacketView::Unsubscribe(x) => spec_encode_unsubscribe(x),
        MqttPacketView::Pingreq => Seq::empty(),
        MqttPacketView::Pingresp => Seq::empty(),
    }
}

/// The fixed header of a packet.
pub open spec fn spec_header_of(p: MqttPacketView) -> FixedHeader {
    FixedHeader {
        packet_type: spec_packet_type(p),
        flags: spec_header_flags(p),
        remaining_length: spec_encode_body(p).len() as u32,
    }
}

/// The bytes of a packet: its fixed header, then its body.
pub open spec fn spec_encode_packet(p: MqttPacketView) -> Seq<u8> {
    spec_encode_fixed_header(spec_header_of(p)) + spec_encode_body(p)
}

/// What the fields of a packet must obey, whatever its size.
pub open spec fn body_wf(p: MqttPacketView) -> bool {
    match p {
        MqttPacketView::Auth(x) => auth_wf(x),
        MqttPacketView::Connack(x) => connack_wf(x),
        MqttPacketView::Connect(x) => connect_wf(x),
        MqttPacketView::Disconnect(x) => disconnect_wf(x),
        MqttPacketView::Puback(x) => puback_wf(x),
        MqttPacketView::Pubcomp(x) => pubcomp_wf(x),
        MqttPacketView::Publish(x) => publish_wf(x),
        MqttPacketView::Pubrec(x) => pubrec_wf(x),
        MqttPacketView::Pubrel(x) => pubrel_wf(x),
        MqttPacketView::Suback(x) => suback_wf(x),
        MqttPacketView::Subscribe(x) => subscribe_wf(x),
        MqttPacketView::Unsuback(x) => unsuback_wf(x),
        MqttPacketView::Unsubscribe(x) => unsubscribe_wf(x),
        MqttPacketView::Pingreq => true,
        MqttPacketView::Pingresp => true,
    }
}

/// A packet is well-formed when its fields obey the rules of its type and
/// its body fits the length field of the fixed header.
pub open spec fn packet_wf(p: MqttPacketView) -> bool {
    body_wf(p) && spec_encode_body(p).len() <= VARINT_MAX
}

/// A body that must be empty.
pub open spec fn spec_parse_empty(body: Seq<u8>, packet: MqttPacketView) -> Result<
    MqttPacketView,
    DecodeError,
> {
    if body.len() == 0 {
        Ok(packet)
    } else {
        Err(DecodeError::MalformedPacket(MalformedReason::TrailingBytes))
    }
}

/// The packet whose fixed header is `header` and whose body is `body`. A
/// field that runs past the end of the body makes the packet malformed.
pub open spec fn spec_parse_body(header: FixedHeader, body: Seq<u8>) -> Result<
    MqttPacketView,
    DecodeError,
> {
    match header.packet_type {
        PacketType::Auth => match spec_parse_auth(body) {
            Ok(p) => Ok(MqttPacketView::Auth(p)),
            Err(e) => Err(spec_bounded(e)),
        },
        PacketType::Connack => match spec_parse_connack(body) {
            Ok(p) => Ok(MqttPacketView::Connack(p)),
            Err(e) => Err(spec_bounded(e)),
        },
        PacketType::Connect => match spec_parse_connect(body) {
            Ok(p) => Ok(MqttPacketView::Connect(p)),
            Err(e) => Err(spec_bounded(e)),
        },
        PacketType::Disconnect => match spec_parse_disconnect(body) {
            Ok(p) => Ok(MqttPacketView::Disconnect(p)),
            Err(e) => Err(spec_bounded(e)),
        },
        PacketType::Puback => match spec_parse_puback(body) {
            Ok(p) => Ok(MqttPacketView::Puback(p)),
            Err(e) => Err(spec_bounded(e)),
        },
        PacketType::Pubcomp => match spec_parse_pubcomp(body) {
            Ok(p) => Ok(MqttPacketView::Pubcomp(p)),
            Err(e) => Err(spec_bounded(e)),
        },
        PacketType::Publish => match spec_parse_publish(header.flags, body) {
            Ok(p) => Ok(MqttPacketView::Publish(p)),
            Err(e) => Err(spec_bounded(e)),
        },
        PacketType::Pubrec => match spec_parse_pubrec(body) {
            Ok(p) => Ok(MqttPacketView::Pubrec(p)),
            Err(e) => Err(spec_bounded(e)),
        },
        PacketType::Pubrel => match spec_parse_pubrel(body) {
            Ok(p) => Ok(MqttPacketView::Pubrel(p)),
            Err(e) => Err(spec_bounded(e)),
        },
        PacketType::Suback => match spec_parse_suback(body) {
            Ok(p) => Ok(MqttPacketView::Suback(p)),
            Err(e) => Err(spec_bounded(e)),
        },
        PacketType::Subscribe => match spec_parse_subscribe(body) {
            Ok(p) => Ok(MqttPacketView::Subscribe(p)),
            Err(e) => Err(spec_bounded(e)),
        },
        PacketType::Unsuback => match spec_parse_unsuback(body) {
            Ok(p) => Ok(MqttPacketView::Unsuback(p)),
            Err(e) => Err(spec_bounded(e)),
        },
        PacketType::Unsubscribe => match spec_parse_unsubscribe(body) {
            Ok(p) => Ok(MqttPacketView::Unsubscribe(p)),
            Err(e) => Err(spec_bounded(e)),
        },
        PacketType::Pingreq => spec_parse_empty(body, MqttPacketView::Pingreq),
        PacketType::Pingresp => spec_parse_empty(body, MqttPacketView::Pingresp),
    }
}

/// The packet at the start of `s`, and what follows it. Input that ends
/// before the packet does is incomplete.
pub open spec fn spec_parse_packet(s: Seq<u8>) -> Result<(MqttPacketView, Seq<u8>), DecodeError> {
    match spec_take_fixed_header(s) {
        Err(e) => Err(e),
        Ok((header, rest)) => if rest.len() < header.remaining_length {
            Err(DecodeError::Incomplete)
        } else {
            match spec_parse_body(header, rest.take(header.remaining_length as int)) {
                Err(e) => Err(e),
                Ok(p) => Ok((p, rest.skip(header.remaining_length as int))),
            }
        },
    }
}

/// The packet that `s` holds and nothing else.
pub open spec fn spec_parse_complete(s: Seq<u8>) -> Result<MqttPacketView, DecodeError> {
    match spec_parse_packet(s) {
        Err(e) => Err(e),
        Ok((p, rest)) => if rest.len() > 0 {
            Err(DecodeError::MalformedPacket(MalformedReason::TrailingBytes))
        } else {
            Ok(p)
        },
    }
}

/// Whether the body of a packet with the given type and flags is in the
/// form that the encoder chooses.
pub open spec fn body_is_canonical(packet_type: PacketType, flags: u8, body: Seq<u8>) -> bool {
    match packet_type {
        PacketType::Auth => auth_is_canonical(body),
        PacketType::Connack => connack_is_canonical(body),
        PacketType::Connect => connect_is_canonical(body),
        PacketType::Disconnect => disconnect_is_canonical(body),
        PacketType::Puback => puback_is_canonical(body),
        PacketType::Pubcomp => pubcomp_is_canonical(body),
        PacketType::Publish => publish_is_canonical(flags, body),
        PacketType::Pubrec => pubrec_is_canonical(body),
        PacketType::Pubrel => pubrel_is_canonical(body),
        PacketType::Suback => suback_is_canonical(body),
        PacketType::Subscribe => subscribe_is_canonical(body),
        PacketType::Unsuback => unsuback_is_canonical(body),
        PacketType::Unsubscribe => unsubscribe_is_canonical(body),
        _ => true,
    }
}

/// Whether the packet at the start of `s` is in the form that the encoder
/// chooses: every variable-length integer in shortest form, and a reason
/// code and properties left out where they need not stand.
pub open spec fn packet_is_canonical(s: Seq<u8>) -> bool {
    &&& varint_is_shortest(s.skip(1))
    &&& spec_take_fixed_header(s) is Ok ==> {
        let header = spec_take_fixed_header(s)->Ok_0.0;
        let rest = spec_take_fixed_header(s)->Ok_0.1;
        rest.len() >= header.remaining_length ==> body_is_canonical(
            header.packet_type,
            header.flags,
            rest.take(header.remaining_length as int),
        )
    }
}

fn parse_auth_packet(body: &mut Reader<'_>) -> (r: MResult<MqttPacket>)
    ensures
        match spec_parse_auth(old(body)@) {
            Ok(p) => r is Ok && r->Ok_0@ == MqttPacketView::Auth(p),
            Err(e) => r == Err::<MqttPacket, DecodeError>(spec_bounded(e)),
        },
{
    match MAuth::parse(body) {
        Ok(p) => Ok(MqttPacket::Auth(p)),
        Err(e) => Err(bounded(e)),
    }
}

fn parse_connack_packet(body: &mut Reader<'_>) -> (r: MResult<MqttPacket>)
    ensures
        match spec_parse_connack(old(body)@) {
            Ok(p) => r is Ok && r->Ok_0@ == MqttPacketView::Connack(p),
            Err(e) => r == Err::<MqttPacket, DecodeError>(spec_bounded(e)),
        },
{
    match MConnack::parse(body) {
        Ok(p) => Ok(MqttPacket::Connack(p)),
        Err(e) => Err(bounded(e)),
    }
}

fn parse_connect_packet(body: &mut Reader<'_>) -> (r: MResult<MqttPacket>)
    ensures
        match spec_parse_connect(old(body)@) {
            Ok(p) => r is Ok && r->Ok_0@ == MqttPacketView::Connect(p),
            Err(e) => r == Err::<MqttPacket, DecodeError>(spec_bounded(e)),
        },
{
    match MConnect::parse(body) {
        Ok(p) => Ok(MqttPacket::Connect(p)),
        Err(e) => Err(bounded(e)),
    }
}

fn parse_disconnect_packet(body: &mut Reader<'_>) -> (r: MResult<MqttPacket>)
    ensures
        match spec_parse_disconnect(old(body)@) {
            Ok(p) => r is Ok && r->Ok_0@ == MqttPacketView::Disconnect(p),
            Err(e) => r == Err::<MqttPacket, DecodeError>(spec_bounded(e)),
        },
{
    match MDisconnect::parse(body) {
        Ok(p) => Ok(MqttPacket::Disconnect(p)),
        Err(e) => Err(bounded(e)),
    }
}

fn parse_puback_packet(body: &mut Reader<'_>) -> (r: MResult<MqttPacket>)
    ensures
        match spec_parse_puback(old(body)@) {
            Ok(p) => r is Ok && r->Ok_0@ == MqttPacketView::Puback(p),
            Err(e) => r == Err::<MqttPacket, DecodeError>(spec_bounded(e)),
        },
{
    match MPuback::parse(body) {
        Ok(p) => Ok(MqttPacket::Puback(p)),
        Err(e) => Err(bounded(e)),
    }
}

fn parse_pubcomp_packet(body: &mut Reader<'_>) -> (r: MResult<MqttPacket>)
    ensures
        match spec_parse_pubcomp(old(body)@) {
            Ok(p) => r is Ok && r->Ok_0@ == MqttPacketView::Pubcomp(p),
            Err(e) => r == Err::<MqttPacket, DecodeError>(spec_bounded(e)),
        },
{
    match MPubcomp::parse(body) {
        Ok(p) => Ok(MqttPacket::Pubcomp(p)),
        Err(e) => Err(bounded(e)),
    }
}

fn parse_publish_packet(flags: u8, body: &mut Reader<'_>) -> (r: MResult<MqttPacket>)
    ensures
        match spec_parse_publish(flags, old(body)@) {
            Ok(p) => r is Ok && r->Ok_0@ == MqttPacketView::Publish(p),
            Err(e) => r == Err::<MqttPacket, DecodeError>(spec_bounded(e)),
        },
{
    match MPublish::parse(flags, body) {
        Ok(p) => Ok(MqttPacket::Publish(p)),
        Err(e) => Err(bounded(e)),
    }
}

fn parse_pubrec_packet(body: &mut Reader<'_>) -> (r: MResult<MqttPacket>)
    ensures
        match spec_parse_pubrec(old(body)@) {
            Ok(p) => r is Ok && r->Ok_0@ == MqttPacketView::Pubrec(p),
            Err(e) => r == Err::<MqttPacket, DecodeError>(spec_bounded(e)),
        },
{
    match MPubrec::parse(body) {
        Ok(p) => Ok(MqttPacket::Pubrec(p)),
        Err(e) => Err(bounded(e)),
    }
}

fn parse_pubrel_packet(body: &mut Reader<'_>) -> (r: MResult<MqttPacket>)
    ensures
        match spec_parse_pubrel(old(body)@) {
            Ok(p) => r is Ok && r->Ok_0@ == MqttPacketView::Pubrel(p),
            Err(e) => r == Err::<MqttPacket, DecodeError>(spec_bounded(e)),
        },
{
    match MPubrel::parse(body) {
        Ok(p) => Ok(MqttPacket::Pubrel(p)),
        Err(e) => Err(bounded(e)),
    }
}

fn parse_suback_packet(body: &mut Reader<'_>) -> (r: MResult<MqttPacket>)
    ensures
        match spec_parse_suback(old(body)@) {
            Ok(p) => r is Ok && r->Ok_0@ == MqttPacketView::Suback(p),
            Err(e) => r == Err::<MqttPacket, DecodeError>(spec_bounded(e)),
        },
{
    match MSuback::parse(body) {
        Ok(p) => Ok(MqttPacket::Suback(p)),
        Err(e) => Err(bounded(e)),
    }
}

fn parse_subscribe_packet(body: &mut Reader<'_>) -> (r: MResult<MqttPacket>)
    ensures
        match spec_parse_subscribe(old(body)@) {
            Ok(p) => r is Ok && r->Ok_0@ == MqttPacketView::Subscribe(p),
            Err(e) => r == Err::<MqttPacket, DecodeError>(spec_bounded(e)),
        },
{
    match MSubscribe::parse(body) {
        Ok(p) => Ok(MqttPacket::Subscribe(p)),
        Err(e) => Err(bounded(e)),
    }
}

fn parse_unsuback_packet(body: &mut Reader<'_>) -> (r: MResult<MqttPacket>)
    ensures
        match spec_parse_unsuback(old(body)@) {
            Ok(p) => r is Ok && r->Ok_0@ == MqttPacketView::Unsuback(p),
            Err(e) => r == Err::<MqttPacket, DecodeError>(spec_bounded(e)),
        },
{
    match MUnsuback::parse(body) {
        Ok(p) => Ok(MqttPacket::Unsuback(p)),
        Err(e) => Err(bounded(e)),
    }
}

fn parse_unsubscribe_packet(body: &mut Reader<'_>) -> (r: MResult<MqttPacket>)
    ensures
        match spec_parse_unsubscribe(old(body)@) {
            Ok(p) => r is Ok && r->Ok_0@ == MqttPacketView::Unsubscribe(p),
            Err(e) => r == Err::<MqttPacket, DecodeError>(spec_bounded(e)),
        },
{
    match MUnsubscribe::parse(body) {
        Ok(p) => Ok(MqttPacket::Unsubscribe(p)),
        Err(e) => Err(bounded(e)),
    }
}

fn parse_body(header: FixedHeader, body: &mut Reader<'_>) -> (r: MResult<MqttPacket>)
    ensures
        match spec_parse_body(header, old(body)@) {
            Ok(p) => r is Ok && r->Ok_0@ == p,
            Err(e) => r == Err::<MqttPacket, DecodeError>(e),
        },
{
    match header.packet_type {
        PacketType::Auth => parse_auth_packet(body),
        PacketType::Connack => parse_connack_packet(body),
        PacketType::Connect => parse_connect_packet(body),
        PacketType::Disconnect => parse_disconnect_packet(body),
        PacketType::Puback => parse_puback_packet(body),
        PacketType::Pubcomp => parse_pubcomp_packet(body),
        PacketType::Publish => parse_publish_packet(header.flags, body),
        PacketType::Pubrec => parse_pubrec_packet(body),
        PacketType::Pubrel => parse_pubrel_packet(body),
        PacketType::Suback => parse_suback_packet(body),
        PacketType::Subscribe => parse_subscribe_packet(body),
        PacketType::Unsuback => parse_unsuback_packet(body),
        PacketType::Unsubscribe => parse_unsubscribe_packet(body),
        PacketType::Pingreq => match MPingreq::parse(body) {
            Ok(p) => Ok(MqttPacket::Pingreq(p)),
            Err(e) => Err(e),
        },
        PacketType::Pingresp => match MPingresp::parse(body) {
            Ok(p) => Ok(MqttPacket::Pingresp(p)),
            Err(e) => Err(e),
        },
    }
}

impl MqttPacket {
    /// Decodes the packet at the start of the input and moves past it.
    pub fn parse(input: &mut Reader<'_>) -> (r: MResult<MqttPacket>)
        ensures
            reads_view(spec_parse_packet(old(input)@), old(input)@, r, final(input)@),
    {
        let mut cur = *input;
        let header = FixedHeader::parse(&mut cur)?;
        let mut body = cur.take_reader(header.remaining_length as usize)?;
        let packet = parse_body(header, &mut body)?;
        *input = cur;
        Ok(packet)
    }

    /// Decodes input that holds one packet and nothing else. Where the
    /// input was in the form that the encoder chooses, encoding the packet
    /// gives the input back.
    pub fn parse_complete(bytes: &[u8]) -> (r: MResult<MqttPacket>)
        ensures
            match spec_parse_complete(bytes@) {
                Ok(p) => r is Ok && r->Ok_0@ == p,
                Err(e) => r == Err::<MqttPacket, DecodeError>(e),
            },
            r is Ok && packet_is_canonical(bytes@) ==> spec_encode_packet(r->Ok_0@) == bytes@,
    {
        let mut input = Reader::new(bytes);
        let packet = MqttPacket::parse(&mut input)?;
        if !input.is_empty() {
            return Err(DecodeError::MalformedPacket(MalformedReason::TrailingBytes));
        }
        proof {
            if packet_is_canonical(bytes@) {
                lemma_packet_encode_decode(bytes@);
                assert(spec_encode_packet(packet@) + Seq::<u8>::empty() =~= spec_encode_packet(
                    packet@,
                ));
            }
        }
        Ok(packet)
    }

    /// The type of this packet.
    pub fn packet_type(&self) -> (t: PacketType)
        ensures
            t == spec_packet_type(self@),
    {
        match self {
            MqttPacket::Auth(_) => PacketType::Auth,
            MqttPacket::Connack(_) => PacketType::Connack,
            MqttPacket::Connect(_) => PacketType::Connect,
            MqttPacket::Disconnect(_) => PacketType::Disconnect,
            MqttPacket::Puback(_) => PacketType::Puback,
            MqttPacket::Pubcomp(_) => PacketType::Pubcomp,
            MqttPacket::Publish(_) => PacketType::Publish,
            MqttPacket::Pubrec(_) => PacketType::Pubrec,
            MqttPacket::Pubrel(_) => PacketType::Pubrel,
            MqttPacket::Suback(_) => PacketType::Suback,
            MqttPacket::Subscribe(_) => PacketType::Subscribe,
            MqttPacket::Unsuback(_) => PacketType::Unsuback,
            MqttPacket::Unsubscribe(_) => PacketType::Unsubscribe,
            MqttPacket::Pingreq(_) => PacketType::Pingreq,
            MqttPacket::Pingresp(_) => PacketType::Pingresp,
        }
    }

    /// The flag bits in the fixed header of this packet.
    pub fn header_flags(&self) -> (flags: u8)
        ensures
            flags == spec_header_flags(self@),
            spec_packet_type(self@).spec_flags_allowed(flags),
    {
        match self {
            MqttPacket::Publish(p) => p.flags(),
            MqttPacket::Pubrel(_) | MqttPacket::Subscribe(_) | MqttPacket::Unsubscribe(_) => 2,
            _ => 0,
        }
    }

    /// Writes what follows the fixed header. A packet whose fields break
    /// the rules of its type is refused before anything is written.
    pub fn write_body<W: WriteMqttPacket>(&self, buffer: &mut W) -> (r: WResult<W>)
        ensures
            !body_wf(self@) ==> r is Err && *final(buffer) == *old(buffer),
            body_wf(self@) ==> write_outcome(
                old(buffer).state(),
                final(buffer).state(),
                spec_encode_body(self@),
                r is Ok,
            ),
    {
        match self {
            MqttPacket::Auth(p) => p.write(buffer),
            MqttPacket::Connack(p) => p.write(buffer),
            MqttPacket::Connect(p) => p.write(buffer),
            MqttPacket::Disconnect(p) => p.write(buffer),
            MqttPacket::Puback(p) => p.write(buffer),
            MqttPacket::Pubcomp(p) => p.write(buffer),
            MqttPacket::Publish(p) => p.write(buffer),
            MqttPacket::Pubrec(p) => p.write(buffer),
            MqttPacket::Pubrel(p) => p.write(buffer),
            MqttPacket::Suback(p) => p.write(buffer),
            MqttPacket::Subscribe(p) => p.write(buffer),
            MqttPacket::Unsuback(p) => p.write(buffer),
            MqttPacket::Unsubscribe(p) => p.write(buffer),
            _ => {
                proof {
                    assert(buffer.state().written + Seq::<u8>::empty() =~= buffer.state().written);
                }
                Ok(())
            },
        }
    }

    /// Number of bytes that follow the fixed header, where the packet is
    /// well-formed.
    pub fn body_size(&self) -> (r: Option<u32>)
        ensures
            match r {
                Some(n) => packet_wf(self@) && n == spec_encode_body(self@).len(),
                None => !packet_wf(self@),
            },
    {
        let mut counter = CountingWriter::new();
        match self.write_body(&mut counter) {
            Ok(()) => {
                proof {
                    assert(counter.bytes@ =~= spec_encode_body(self@));
                }
                if counter.count <= VARINT_MAX as usize {
                    Some(counter.count as u32)
                } else {
                    None
                }
            },
            Err(_) => None,
        }
    }

    /// Writes the packet: its fixed header, then its body. A packet that
    /// is not well-formed is refused before anything is written.
    pub fn write<W: WriteMqttPacket>(&self, buffer: &mut W) -> (r: WResult<W>)
        ensures
            !packet_wf(self@) ==> r is Err && *final(buffer) == *old(buffer),
            packet_wf(self@) ==> write_outcome(
                old(buffer).state(),
                final(buffer).state(),
                spec_encode_packet(self@),
                r is Ok,
            ),
    {
        let remaining_length: u32 = match self.body_size() {
            None => {
                return Err(W::Error::from(MqttWriteError::Invariant));
            },
            Some(n) => n,
        };
        let header = FixedHeader {
            packet_type: self.packet_type(),
            flags: self.header_flags(),
            remaining_length,
        };
        let ghost before = buffer.state().written;
        header.write(buffer)?;
        let r = self.write_body(buffer);
        proof {
            if r is Ok {
                assert(buffer.state().written =~= before + spec_encode_packet(self@));
            }
        }
        r
    }

    /// The bytes of the packet, or `Invariant` where it is not well-formed.
    /// Decoding the bytes gives the packet back.
    pub fn to_bytes(&self) -> (r: Result<Vec<u8>, MqttWriteError>)
        ensures
            match r {
                Ok(bytes) => packet_wf(self@) && bytes@ == spec_encode_packet(self@)
                    && spec_parse_complete(bytes@) == Ok::<_, DecodeError>(self@),
                Err(e) => !packet_wf(self@) && e == MqttWriteError::Invariant,
            },
    {
        if self.body_size().is_none() {
            return Err(MqttWriteError::Invariant);
        }
        let mut writer = VecWriter::new();
        proof {
            lemma_varint_shape(spec_header_of(self@).remaining_length);
        }
        match self.write(&mut writer) {
            Ok(()) => {
                proof {
                    assert(writer.buffer@ =~= spec_encode_packet(self@));
                    lemma_packet_decode_encode(self@, Seq::empty());
                    assert(spec_encode_packet(self@) + Seq::<u8>::empty() =~= spec_encode_packet(
                        self@,
                    ));
                }
                Ok(writer.buffer)
            },
            Err(_) => {
                proof {
                    assert(false);
                }
                Err(MqttWriteError::Invariant)
            },
        }
    }
}

/// Decoding what was encoded gives the packet back: a well-formed packet,
/// encoded and followed by anything, decodes to the same packet and leaves
/// what followed.
pub proof fn lemma_packet_decode_encode(p: MqttPacketView, tail: Seq<u8>)
    requires
        packet_wf(p),
    ensures
        spec_parse_packet(spec_encode_packet(p) + tail) == Ok::<
            (MqttPacketView, Seq<u8>),
            DecodeError,
        >((p, tail)),
{
    let header = spec_header_of(p);
    let body = spec_encode_body(p);
    if p is Publish {
        lemma_publish_flags(p->Publish_0);
    }
    assert(fixed_header_wf(header));
    let s = spec_encode_packet(p) + tail;
    assert(s =~= spec_encode_fixed_header(header) + (body + tail));
    lemma_fixed_header_decode_encode(header, body + tail);
    assert((body + tail).take(body.len() as int) =~= body);
    assert((body + tail).skip(body.len() as int) =~= tail);
    match p {
        MqttPacketView::Auth(x) => {
            lemma_auth_decode_encode(x);
        },
        MqttPacketView::Connack(x) => {
            lemma_connack_decode_encode(x);
        },
        MqttPacketView::Connect(x) => {
            lemma_connect_decode_encode(x);
        },
        MqttPacketView::Disconnect(x) => {
            lemma_disconnect_decode_encode(x);
        },
        MqttPacketView::Puback(x) => {
            lemma_puback_decode_encode(x);
        },
        MqttPacketView::Pubcomp(x) => {
            lemma_pubcomp_decode_encode(x);
        },
        MqttPacketView::Publish(x) => {
            lemma_publish_decode_encode(x);
        },
        MqttPacketView::Pubrec(x) => {
            lemma_pubrec_decode_encode(x);
        },
        MqttPacketView::Pubrel(x) => {
            lemma_pubrel_decode_encode(x);
        },
        MqttPacketView::Suback(x) => {
            lemma_suback_decode_encode(x);
        },
        MqttPacketView::Subscribe(x) => {
            lemma_subscribe_decode_encode(x);
        },
        MqttPacketView::Unsuback(x) => {
            lemma_unsuback_decode_encode(x);
        },
        MqttPacketView::Unsubscribe(x) => {
            lemma_unsubscribe_decode_encode(x);
        },
        _ => {},
    }
    assert(spec_parse_body(header, body) == Ok::<MqttPacketView, DecodeError>(p));
}

/// Encoding what was decoded gives the bytes back: where input decodes to
/// a packet and is in the form that the encoder chooses, the packet is
/// well-formed and its encoding, followed by what was left over, is the
/// input.
pub proof fn lemma_packet_encode_decode(s: Seq<u8>)
    requires
        spec_parse_packet(s) is Ok,
        packet_is_canonical(s),
    ensures
        spec_encode_packet(spec_parse_packet(s)->Ok_0.0) + spec_parse_packet(s)->Ok_0.1 == s,
        packet_wf(spec_parse_packet(s)->Ok_0.0),
{
    let p = spec_parse_packet(s)->Ok_0.0;
    let rest = spec_parse_packet(s)->Ok_0.1;
    let header = spec_take_fixed_header(s)->Ok_0.0;
    let after = spec_take_fixed_header(s)->Ok_0.1;
    lemma_fixed_header_encode_decode(s);
    let body = after.take(header.remaining_length as int);
    assert(body + rest =~= after);
    match header.packet_type {
        PacketType::Auth => {
            lemma_auth_encode_decode(body);
        },
        PacketType::Connack => {
            lemma_connack_encode_decode(body);
        },
        PacketType::Connect => {
            lemma_connect_encode_decode(body);
        },
        PacketType::Disconnect => {
            lemma_disconnect_encode_decode(body);
        },
        PacketType::Puback => {
            lemma_puback_encode_decode(body);
        },
        PacketType::Pubcomp => {
            lemma_pubcomp_encode_decode(body);
        },
        PacketType::Publish => {
            lemma_publish_encode_decode(header.flags, body);
        },
        PacketType::Pubrec => {
            lemma_pubrec_encode_decode(body);
        },
        PacketType::Pubrel => {
            lemma_pubrel_encode_decode(body);
        },
        PacketType::Suback => {
            lemma_suback_encode_decode(body);
        },
        PacketType::Subscribe => {
            lemma_subscribe_encode_decode(body);
        },
        PacketType::Unsuback => {
            lemma_unsuback_encode_decode(body);
        },
        PacketType::Unsubscribe => {
            lemma_unsubscribe_encode_decode(body);
        },
        _ => {
            assert(body =~= Seq::<u8>::empty());
        },
    }
    assert(spec_encode_body(p) == body);
    assert(spec_header_of(p) == header);
    assert(spec_encode_packet(p) + rest =~= spec_encode_fixed_header(header) + (body + rest));
}

/// Two well-formed packets with the same bytes are the same packet.
pub proof fn lemma_encoding_is_injective(p: MqttPacketView, q: MqttPacketView)
    requires
        packet_wf(p),
        packet_wf(q),
        spec_encode_packet(p) == spec_encode_packet(q),
    ensures
        p == q,
{
    lemma_packet_decode_encode(p, Seq::empty());
    lemma_packet_decode_encode(q, Seq::empty());
}

} // verus!
