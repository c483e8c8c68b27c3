//! The PUBREC packet.

use vstd::prelude::*;
use crate::wire::read::VARINT_MAX;
use crate::v5::properties::spec_encode_entries;
use crate::v5::properties::value_wf;
use crate::v5::packets::reason_tail::lemma_reason_tail_decode_encode;
use crate::v5::packets::reason_tail::lemma_reason_tail_encode_decode;
use crate::v5::packets::reason_tail::parse_reason_tail;
use crate::v5::packets::reason_tail::reason_tail_is_canonical;
use crate::v5::packets::reason_tail::spec_encode_reason_tail;
use crate::v5::packets::reason_tail::spec_parse_reason_tail;
use crate::v5::packets::reason_tail::write_reason_tail;
use crate::v5::properties::Properties;
use crate::v5::properties::PropertyContext;
use crate::v5::properties::PropertyView;
use crate::v5::properties::properties_wf;
use crate::v5::reason_code::PubrecReasonCode;
use crate::v5::variable_header::PacketIdentifier;
use crate::wire::read::DecodeError;
use crate::wire::read::MResult;
use crate::wire::read::MalformedReason;
use crate::wire::read::Reader;
use crate::wire::read::spec_take_u16_be;
use crate::wire::roundtrip::lemma_u16_decode_encode;
use crate::wire::roundtrip::lemma_u16_encode_decode;
use crate::wire::write::MqttWriteError;
use crate::wire::write::WResult;
use crate::wire::write::WriteMqttPacket;
use crate::wire::write::spec_encode_u16;
use crate::wire::write::write_outcome;

verus! {

/// The first answer to a PUBLISH at quality of service 2, as plain data.
pub struct PubrecView {
    pub packet_identifier: PacketIdentifier,
    pub reason: PubrecReasonCode,
    pub properties: Seq<PropertyView>,
}

/// The first answer to a PUBLISH at quality of service 2.
#[derive(Debug, Clone, PartialEq, Eq)]
pub struct MPubrec {
    pub packet_identifier: PacketIdentifier,
    pub reason: PubrecReasonCode,
    pub properties: Properties,
}

impl View for MPubrec {
    type V = PubrecView;

    open spec fn view(&self) -> PubrecView {
        PubrecView {
            packet_identifier: self.packet_identifier,
            reason: self.reason,
            properties: self.properties@,
        }
    }
}

/// A PUBREC is well-formed when its properties are well-formed for it.
pub open spec fn pubrec_wf(p: PubrecView) -> bool {
    properties_wf(p.properties, PropertyContext::Pubrec)
}

/// The body of a PUBREC: the packet identifier, then the reason code and
/// the properties in their shortest form.
pub open spec fn spec_encode_pubrec(p: PubrecView) -> Seq<u8> {
    spec_encode_u16(p.packet_identifier.0) + spec_encode_reason_tail(p.reason.spec_to_byte(), p.properties)
}

/// What the body of a PUBREC decodes to. The reason code and the
/// properties may be left out: the reason code is then `Success`,
/// and there are no properties.
#[verifier::opaque]
pub open spec fn spec_parse_pubrec(body: Seq<u8>) -> Result<PubrecView, DecodeError> {
    match spec_take_u16_be(body) {
        Err(e) => Err(e),
        Ok((id, rest)) => match spec_parse_reason_tail(rest, PropertyContext::Pubrec) {
            Err(e) => Err(e),
            Ok((code, properties)) => match PubrecReasonCode::spec_from_byte(code) {
                None => Err(DecodeError::MalformedPacket(MalformedReason::UnknownReasonCode)),
                Some(reason) => Ok(
                    PubrecView { packet_identifier: PacketIdentifier(id), reason, properties },
                ),
            },
        },
    }
}

/// Whether the body of a PUBREC is in the form that the encoder
/// chooses.
pub open spec fn pubrec_is_canonical(body: Seq<u8>) -> bool {
    spec_take_u16_be(body) is Ok ==> reason_tail_is_canonical(
        spec_take_u16_be(body)->Ok_0.1,
        PropertyContext::Pubrec,
    )
}

impl MPubrec {
    /// Decodes the body of a PUBREC. All of the input is used.
    pub fn parse(input: &mut Reader<'_>) -> (r: MResult<MPubrec>)
        ensures
            match spec_parse_pubrec(old(input)@) {
                Ok(v) => r is Ok && r->Ok_0@ == v && final(input)@.len() == 0,
                Err(e) => r == Err::<MPubrec, DecodeError>(e) && final(input)@ == old(input)@,
            },
    {
        proof {
            reveal(spec_parse_pubrec);
        }
        let mut cur = *input;
        let id: u16 = cur.take_u16_be()?;
        let (code, properties) = parse_reason_tail(&mut cur, PropertyContext::Pubrec)?;
        let reason = match PubrecReasonCode::from_byte(code) {
            None => {
                return Err(DecodeError::MalformedPacket(MalformedReason::UnknownReasonCode));
            },
            Some(c) => c,
        };
        *input = cur;
        Ok(MPubrec { packet_identifier: PacketIdentifier(id), reason, properties })
    }

    /// Whether the packet is well-formed.
    pub fn is_valid(&self) -> (b: bool)
        ensures
            b == pubrec_wf(self@),
    {
        self.properties.is_valid(PropertyContext::Pubrec) && self.properties.entries_size().is_some()
    }

    /// Number of bytes of the body. The values of the properties must be
    /// well-formed and the properties together must fit their length
    /// field, or there is no such number.
    pub fn binary_size(&self) -> (n: u32)
        requires
            spec_encode_entries(self@.properties).len() <= VARINT_MAX,
            forall|i: int|
                0 <= i < self@.properties.len() ==> value_wf((#[trigger] self@.properties[i]).value),
        ensures
            n == spec_encode_pubrec(self@).len(),
    {
        if self.reason.to_byte() == 0 && self.properties.is_empty() {
            proof {
                assert(self@.properties.len() == 0);
            }
            2
        } else {
            match self.properties.binary_size() {
                Some(n) => 3 + n,
                None => {
                    proof {
                        assert(false);
                    }
                    0
                },
            }
        }
    }

    /// Writes the body. A packet that is not well-formed is refused before
    /// anything is written.
    pub fn write<W: WriteMqttPacket>(&self, buffer: &mut W) -> (r: WResult<W>)
        ensures
            !pubrec_wf(self@) ==> r is Err && *final(buffer) == *old(buffer),
            pubrec_wf(self@) ==> write_outcome(
                old(buffer).state(),
                final(buffer).state(),
                spec_encode_pubrec(self@),
                r is Ok,
            ),
    {
        if !self.is_valid() {
            return Err(W::Error::from(MqttWriteError::Invariant));
        }
        let ghost before = buffer.state().written;
        buffer.write_u16(self.packet_identifier.0)?;
        let r = write_reason_tail(self.reason.to_byte(), &self.properties, buffer);
        proof {
            if r is Ok {
                assert(buffer.state().written =~= before + spec_encode_pubrec(self@));
            }
        }
        r
    }
}

/// A well-formed PUBREC, encoded, decodes to itself.
pub proof fn lemma_pubrec_decode_encode(p: PubrecView)
    requires
        pubrec_wf(p),
    ensures
        spec_parse_pubrec(spec_encode_pubrec(p)) == Ok::<PubrecView, DecodeError>(p),
{
    reveal(spec_parse_pubrec);
    p.reason.lemma_roundtrip(0);
    lemma_reason_tail_decode_encode(p.reason.spec_to_byte(), p.properties, PropertyContext::Pubrec);
    let tail = spec_encode_reason_tail(p.reason.spec_to_byte(), p.properties);
    lemma_u16_decode_encode(p.packet_identifier.0, tail);
}

/// A decoded PUBREC encodes to the bytes it came from, where those were
/// in the form that the encoder chooses, and is well-formed.
pub proof fn lemma_pubrec_encode_decode(body: Seq<u8>)
    requires
        spec_parse_pubrec(body) is Ok,
        pubrec_is_canonical(body),
    ensures
        spec_encode_pubrec(spec_parse_pubrec(body)->Ok_0) == body,
        pubrec_wf(spec_parse_pubrec(body)->Ok_0),
{
    reveal(spec_parse_pubrec);
    lemma_u16_encode_decode(body);
    let rest = spec_take_u16_be(body)->Ok_0.1;
    lemma_reason_tail_encode_decode(rest, PropertyContext::Pubrec);
    let p = spec_parse_pubrec(body)->Ok_0;
    p.reason.lemma_roundtrip(spec_parse_reason_tail(rest, PropertyContext::Pubrec)->Ok_0.0);
}

} // verus!
