//! The PUBLISH packet.

use vstd::prelude::*;
use crate::v5::properties::Properties;
use crate::v5::properties::PropertyContext;
use crate::v5::properties::PropertyView;
use crate::v5::properties::properties_wf;
use crate::v5::properties::spec_encode_properties;
use crate::v5::properties::spec_take_properties;
use crate::v5::property_laws::lemma_properties_decode_encode;
use crate::v5::property_laws::lemma_properties_encode_decode;
use crate::v5::property_laws::properties_are_canonical;
use crate::v5::qos::QualityOfService;
use crate::v5::variable_header::PacketIdentifier;
use crate::wire::read::DecodeError;
use crate::wire::read::MResult;
use crate::wire::read::ProtocolReason;
use crate::wire::read::Reader;
use crate::wire::read::spec_take_u16_be;
use crate::wire::roundtrip::lemma_string_decode_encode;
use crate::wire::roundtrip::lemma_string_encode_decode;
use crate::wire::roundtrip::lemma_u16_decode_encode;
use crate::wire::roundtrip::lemma_u16_encode_decode;
use crate::wire::strings::MqttString;
use crate::wire::strings::has_wildcard;
use crate::wire::strings::is_mqtt_string;
use crate::wire::strings::spec_encode_string;
use crate::wire::strings::spec_take_string;
use crate::wire::strings::str_has_wildcard;
use crate::wire::write::MqttWriteError;
use crate::wire::write::WResult;
use crate::wire::write::WriteMqttPacket;
use crate::wire::write::bit;
use crate::wire::write::spec_encode_u16;
use crate::wire::write::write_outcome;

verus! {

/// A PUBLISH, as plain data.
pub struct PublishView {
    pub duplicate: bool,
    pub quality_of_service: QualityOfService,
    pub retain: bool,
    pub topic_name: Seq<char>,
    pub packet_identifier: Option<PacketIdentifier>,
    pub properties: Seq<PropertyView>,
    pub payload: Seq<u8>,
}

/// A message on its way to or from a client.
#[derive(Debug, Clone, PartialEq, Eq)]
pub struct MPublish {
    pub duplicate: bool,
    pub quality_of_service: QualityOfService,
    pub retain: bool,
    pub topic_name: MqttString,
    /// The packet identifier, present exactly when the quality of service
    /// is above `AtMostOnce`.
    pub packet_identifier: Option<PacketIdentifier>,
    pub properties: Properties,
    pub payload: Vec<u8>,
}

impl View for MPublish {
    type V = PublishView;

    open spec fn view(&self) -> PublishView {
        PublishView {
            duplicate: self.duplicate,
            quality_of_service: self.quality_of_service,
            retain: self.retain,
            topic_name: self.topic_name@,
            packet_identifier: self.packet_identifier,
            properties: self.properties@,
            payload: self.payload@,
        }
    }
}

/// The flag bits of a PUBLISH: DUP, the quality of service, RETAIN.
pub open spec fn spec_publish_flags(p: PublishView) -> u8 {
    (bit(p.duplicate) * 8 + p.quality_of_service.spec_to_byte() * 2 + bit(p.retain)) as u8
}

/// A PUBLISH is well-formed when its topic is an MQTT string without
/// wildcards, it carries a packet identifier, which is not zero, exactly
/// when its quality of service is above `AtMostOnce`, and its properties
/// are well-formed for it.
pub open spec fn publish_wf(p: PublishView) -> bool {
    &&& is_mqtt_string(p.topic_name)
    &&& !has_wildcard(p.topic_name)
    &&& (p.packet_identifier is Some <==> p.quality_of_service != QualityOfService::AtMostOnce)
    &&& p.packet_identifier != Some(PacketIdentifier(0))
    &&& properties_wf(p.properties, PropertyContext::Publish)
}

pub open spec fn spec_encode_publish_id(id: Option<PacketIdentifier>) -> Seq<u8> {
    match id {
        Some(id) => spec_encode_u16(id.0),
        None => Seq::empty(),
    }
}

/// The body of a PUBLISH: the topic name, the packet identifier where
/// there is one, the properties, and the payload.
pub open spec fn spec_encode_publish(p: PublishView) -> Seq<u8> {
    spec_encode_string(p.topic_name) + spec_encode_publish_id(p.packet_identifier)
        + spec_encode_properties(p.properties) + p.payload
}

/// The packet identifier of a PUBLISH, which stands there where the
/// quality of service is above `AtMostOnce` and must not be zero.
pub open spec fn spec_take_publish_id(qos: QualityOfService, s: Seq<u8>) -> Result<
    (Option<PacketIdentifier>, Seq<u8>),
    DecodeError,
> {
    if qos == QualityOfService::AtMostOnce {
        Ok((None, s))
    } else {
        match spec_take_u16_be(s) {
            Err(e) => Err(e),
            Ok((id, rest)) => if id == 0 {
                Err(DecodeError::ProtocolError(ProtocolReason::ZeroPacketIdentifier))
            } else {
                Ok((Some(PacketIdentifier(id)), rest))
            },
        }
    }
}

/// What the body of a PUBLISH decodes to, whose fixed header carried
/// `flags`. The payload is everything after the properties.
#[verifier::opaque]
pub open spec fn spec_parse_publish(flags: u8, body: Seq<u8>) -> Result<PublishView, DecodeError> {
    match QualityOfService::spec_from_byte((flags / 2) % 4) {
        None => Err(DecodeError::InvalidFixedHeaderFlags),
        Some(qos) => match spec_take_string(body) {
            Err(e) => Err(e),
            Ok((topic_name, r1)) => if has_wildcard(topic_name) {
                Err(DecodeError::ProtocolError(ProtocolReason::WildcardInTopicName))
            } else {
                match spec_take_publish_id(qos, r1) {
                    Err(e) => Err(e),
                    Ok((packet_identifier, r2)) => match spec_take_properties(
                        r2,
                        PropertyContext::Publish,
                    ) {
                        Err(e) => Err(e),
                        Ok((properties, payload)) => Ok(
                            PublishView {
                                duplicate: (flags / 8) % 2 == 1,
                                quality_of_service: qos,
                                retain: flags % 2 == 1,
                                topic_name,
                                packet_identifier,
                                properties,
                                payload,
                            },
                        ),
                    },
                }
            },
        },
    }
}

/// Whether the body of a PUBLISH has its properties in shortest form.
pub open spec fn publish_is_canonical(flags: u8, body: Seq<u8>) -> bool {
    (spec_take_string(body) is Ok && QualityOfService::spec_from_byte((flags / 2) % 4) is Some) ==> {
        let r1 = spec_take_string(body)->Ok_0.1;
        let qos = QualityOfService::spec_from_byte((flags / 2) % 4)->0;
        spec_take_publish_id(qos, r1) is Ok ==> properties_are_canonical(
            spec_take_publish_id(qos, r1)->Ok_0.1,
        )
    }
}

fn flag(b: bool) -> (r: u8)
    ensures
        r == bit(b),
{
    if b {
        1
    } else {
        0
    }
}

impl MPublish {
    /// Decodes the body of a PUBLISH whose fixed header carried `flags`.
    /// All of the input is used.
    pub fn parse(flags: u8, input: &mut Reader<'_>) -> (r: MResult<MPublish>)
        ensures
            match spec_parse_publish(flags, old(input)@) {
                Ok(v) => r is Ok && r->Ok_0@ == v && final(input)@.len() == 0,
                Err(e) => r == Err::<MPublish, DecodeError>(e) && final(input)@ == old(input)@,
            },
    {
        proof {
            reveal(spec_parse_publish);
        }
        let mut cur = *input;
        let quality_of_service = match QualityOfService::from_byte((flags / 2) % 4) {
            None => {
                return Err(DecodeError::InvalidFixedHeaderFlags);
            },
            Some(q) => q,
        };
        let topic_name = MqttString::parse(&mut cur)?;
        if str_has_wildcard(topic_name.as_str()) {
            return Err(DecodeError::ProtocolError(ProtocolReason::WildcardInTopicName));
        }
        let packet_identifier = match quality_of_service {
            QualityOfService::AtMostOnce => None,
            _ => {
                let id: u16 = cur.take_u16_be()?;
                if id == 0 {
                    return Err(DecodeError::ProtocolError(ProtocolReason::ZeroPacketIdentifier));
                }
                Some(PacketIdentifier(id))
            },
        };
        let properties = Properties::parse(&mut cur, PropertyContext::Publish)?;
        let payload = cur.take_rest();
        *input = cur;
        Ok(
            MPublish {
                duplicate: (flags / 8) % 2 == 1,
                quality_of_service,
                retain: flags % 2 == 1,
                topic_name,
                packet_identifier,
                properties,
                payload,
            },
        )
    }

    /// The flag bits that the fixed header of this packet carries.
    pub fn flags(&self) -> (r: u8)
        ensures
            r == spec_publish_flags(self@),
            r < 16,
            (r / 2) % 4 != 3,
    {
        flag(self.duplicate) * 8 + self.quality_of_service.to_byte() * 2 + flag(self.retain)
    }

    /// Whether the packet is well-formed.
    pub fn is_valid(&self) -> (b: bool)
        ensures
            b == publish_wf(self@),
    {
        let plain = !str_has_wildcard(self.topic_name.as_str());
        let identified = match self.packet_identifier {
            Some(id) => id.0 != 0 && !matches!(self.quality_of_service, QualityOfService::AtMostOnce),
            None => matches!(self.quality_of_service, QualityOfService::AtMostOnce),
        };
        plain && identified && self.properties.is_valid(PropertyContext::Publish)
            && self.properties.entries_size().is_some()
    }

    /// Writes the body. A packet that is not well-formed is refused before
    /// anything is written.
    pub fn write<W: WriteMqttPacket>(&self, buffer: &mut W) -> (r: WResult<W>)
        ensures
            !publish_wf(self@) ==> r is Err && *final(buffer) == *old(buffer),
            publish_wf(self@) ==> write_outcome(
                old(buffer).state(),
                final(buffer).state(),
                spec_encode_publish(self@),
                r is Ok,
            ),
    {
        if !self.is_valid() {
            return Err(W::Error::from(MqttWriteError::Invariant));
        }
        let ghost before = buffer.state().written;
        self.topic_name.write(buffer)?;
        match self.packet_identifier {
            Some(id) => {
                buffer.write_u16(id.0)?;
            },
            None => {},
        }
        proof {
            assert(buffer.state().written =~= before + spec_encode_string(self@.topic_name)
                + spec_encode_publish_id(self@.packet_identifier));
        }
        self.properties.write(buffer)?;
        let r = buffer.write_slice(self.payload.as_slice());
        proof {
            if r is Ok {
                assert(buffer.state().written =~= before + spec_encode_publish(self@));
            }
        }
        r
    }
}

/// The flag bits of a PUBLISH give its DUP, quality of service and RETAIN
/// back.
pub proof fn lemma_publish_flags(p: PublishView)
    ensures
        ({
            let flags = spec_publish_flags(p);
            &&& flags < 16
            &&& QualityOfService::spec_from_byte((flags / 2) % 4) == Some(p.quality_of_service)
            &&& ((flags / 8) % 2 == 1) == p.duplicate
            &&& (flags % 2 == 1) == p.retain
        }),
{
}

/// A well-formed PUBLISH, encoded, decodes to itself under its own flags.
pub proof fn lemma_publish_decode_encode(p: PublishView)
    requires
        publish_wf(p),
    ensures
        spec_parse_publish(spec_publish_flags(p), spec_encode_publish(p)) == Ok::<
            PublishView,
            DecodeError,
        >(p),
{
    reveal(spec_parse_publish);
    lemma_publish_flags(p);
    let ident = spec_encode_publish_id(p.packet_identifier);
    let block = spec_encode_properties(p.properties);
    let body = spec_encode_publish(p);
    assert(body =~= spec_encode_string(p.topic_name) + (ident + (block + p.payload)));
    lemma_string_decode_encode(p.topic_name, ident + (block + p.payload));
    match p.packet_identifier {
        Some(id) => {
            lemma_u16_decode_encode(id.0, block + p.payload);
        },
        None => {
            assert(ident + (block + p.payload) =~= block + p.payload);
        },
    }
    lemma_properties_decode_encode(p.properties, PropertyContext::Publish, p.payload);
}

/// A decoded PUBLISH is well-formed and encodes to the bytes it came from,
/// where its properties were in shortest form, and its flags are the flags
/// it was decoded under.
pub proof fn lemma_publish_encode_decode(flags: u8, body: Seq<u8>)
    requires
        flags < 16,
        spec_parse_publish(flags, body) is Ok,
        publish_is_canonical(flags, body),
    ensures
        spec_encode_publish(spec_parse_publish(flags, body)->Ok_0) == body,
        publish_wf(spec_parse_publish(flags, body)->Ok_0),
        spec_publish_flags(spec_parse_publish(flags, body)->Ok_0) == flags,
{
    reveal(spec_parse_publish);
    let p = spec_parse_publish(flags, body)->Ok_0;
    lemma_string_encode_decode(body);
    let r1 = spec_take_string(body)->Ok_0.1;
    if p.quality_of_service != QualityOfService::AtMostOnce {
        lemma_u16_encode_decode(r1);
    }
    let r2 = spec_take_publish_id(p.quality_of_service, r1)->Ok_0.1;
    assert(spec_encode_publish_id(p.packet_identifier) + r2 =~= r1);
    lemma_properties_encode_decode(r2, PropertyContext::Publish);
    assert(spec_encode_publish(p) =~= spec_encode_string(p.topic_name) + (spec_encode_publish_id(
        p.packet_identifier,
    ) + (spec_encode_properties(p.properties) + p.payload)));
}

} // verus!
