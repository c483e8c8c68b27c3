//! The PUBCOMP packet.

use vstd::prelude::*;
use crate::wire::read::VARINT_MAX;
use crate::v5::properties::spec_encode_entries;
use crate::v5::properties::value_wf;
use crate::v5::packets::reason_tail::lemma_reason_tail_decode_encode;
use crate::v5::packets::reason_tail::lemma_reason_tail_encode_decode;
use crate::v5::packets::reason_tail::parse_reason_tail;
use crate::v5::packets::reason_tail::reason_tail_is_canonical;
use crate::v5::packets::reason_tail::spec_encode_reason_tail;
use crate::v5::packets::reason_tail::spec_parse_reason_tail;
use crate::v5::packets::reason_tail::write_reason_tail;
use crate::v5::properties::Properties;
use crate::v5::properties::PropertyContext;
use crate::v5::properties::PropertyView;
use crate::v5::properties::properties_wf;
use crate::v5::reason_code::PubcompReasonCode;
use crate::v5::variable_header::PacketIdentifier;
use crate::wire::read::DecodeError;
use crate::wire::read::MResult;
use crate::wire::read::MalformedReason;
use crate::wire::read::Reader;
use crate::wire::read::spec_take_u16_be;
use crate::wire::roundtrip::lemma_u16_decode_encode;
use crate::wire::roundtrip::lemma_u16_encode_decode;
use crate::wire::write::MqttWriteError;
use crate::wire::write::WResult;
use crate::wire::write::WriteMqttPacket;
use crate::wire::write::spec_encode_u16;
use crate::wire::write::write_outcome;

verus! {

/// The last answer to a PUBLISH at quality of service 2, as plain data.
pub struct PubcompView {
    pub packet_identifier: PacketIdentifier,
    pub reason: PubcompReasonCode,
    pub properties: Seq<PropertyView>,
}

/// The last answer to a PUBLISH at quality of service 2.
#[derive(Debug, Clone, PartialEq, Eq)]
pub struct MPubcomp {
    pub packet_identifier: PacketIdentifier,
    pub reason: PubcompReasonCode,
    pub properties: Properties,
}

impl View for MPubcomp {
    type V = PubcompView;

    open spec fn view(&self) -> PubcompView {
        PubcompView {
            packet_identifier: self.packet_identifier,
            reason: self.reason,
            properties: self.properties@,
        }
    }
}

/// A PUBCOMP is well-formed when its properties are well-formed for it.
pub open spec fn pubcomp_wf(p: PubcompView) -> bool {
    properties_wf(p.properties, PropertyContext::Pubcomp)
}

/// The body of a PUBCOMP: the packet identifier, then the reason code and
/// the properties in their shortest form.
pub open spec fn spec_encode_pubcomp(p: PubcompView) -> Seq<u8> {
    spec_encode_u16(p.packet_identifier.0) + spec_encode_reason_tail(p.reason.spec_to_byte(), p.properties)
}

/// What the body of a PUBCOMP decodes to. The reason code and the
/// properties may be left out: the reason code is then `Success`,
/// and there are no properties.
#[verifier::opaque]
pub open spec fn spec_parse_pubcomp(body: Seq<u8>) -> Result<PubcompView, DecodeError> {
    match spec_take_u16_be(body) {
        Err(e) => Err(e),
        Ok((id, rest)) => match spec_parse_reason_tail(rest, PropertyContext::Pubcomp) {
            Err(e) => Err(e),
            Ok((code, properties)) => match PubcompReasonCode::spec_from_byte(code) {
                None => Err(DecodeError::MalformedPacket(MalformedReason::UnknownReasonCode)),
                Some(reason) => Ok(
                    PubcompView { packet_identifier: PacketIdentifier(id), reason, properties },
                ),
            },
        },
    }
}

/// Whether the body of a PUBCOMP is in the form that the encoder
/// chooses.
pub open spec fn pubcomp_is_canonical(body: Seq<u8>) -> bool {
    spec_take_u16_be(body) is Ok ==> reason_tail_is_canonical(
        spec_take_u16_be(body)->Ok_0.1,
        PropertyContext::Pubcomp,
    )
}

impl MPubcomp {
    /// Decodes the body of a PUBCOMP. All of the input is used.
    pub fn parse(input: &mut Reader<'_>) -> (r: MResult<MPubcomp>)
        ensures
            match spec_parse_pubcomp(old(input)@) {
                Ok(v) => r is Ok && r->Ok_0@ == v && final(input)@.len() == 0,
                Err(e) => r == Err::<MPubcomp, DecodeError>(e) && final(input)@ == old(input)@,
            },
    {
        proof {
            reveal(spec_parse_pubcomp);
        }
        let mut cur = *input;
        let id: u16 = cur.take_u16_be()?;
        let (code, properties) = parse_reason_tail(&mut cur, PropertyContext::Pubcomp)?;
        let reason = match PubcompReasonCode::from_byte(code) {
            None => {
                return Err(DecodeError::MalformedPacket(MalformedReason::UnknownReasonCode));
            },
            Some(c) => c,
        };
        *input = cur;
        Ok(MPubcomp { packet_identifier: PacketIdentifier(id), reason, properties })
    }

    /// Whether the packet is well-formed.
    pub fn is_valid(&self) -> (b: bool)
        ensures
            b == pubcomp_wf(self@),
    {
        self.properties.is_valid(PropertyContext::Pubcomp) && self.properties.entries_size().is_some()
    }

    /// Number of bytes of the body. The values of the properties must be
    /// well-formed and the properties together must fit their length
    /// field, or there is no such number.
    pub fn binary_size(&self) -> (n: u32)
        requires
            spec_encode_entries(self@.properties).len() <= VARINT_MAX,
            forall|i: int|
                0 <= i < self@.properties.len() ==> value_wf((#[trigger] self@.properties[i]).value),
        ensures
            n == spec_encode_pubcomp(self@).len(),
    {
        if self.reason.to_byte() == 0 && self.properties.is_empty() {
            proof {
                assert(self@.properties.len() == 0);
            }
            2
        } else {
            match self.properties.binary_size() {
                Some(n) => 3 + n,
                None => {
                    proof {
                        assert(false);
                    }
                    0
                },
            }
        }
    }

    /// Writes the body. A packet that is not well-formed is refused before
    /// anything is written.
    pub fn write<W: WriteMqttPacket>(&self, buffer: &mut W) -> (r: WResult<W>)
        ensures
            !pubcomp_wf(self@) ==> r is Err && *final(buffer) == *old(buffer),
            pubcomp_wf(self@) ==> write_outcome(
                old(buffer).state(),
                final(buffer).state(),
                spec_encode_pubcomp(self@),
                r is Ok,
            ),
    {
        if !self.is_valid() {
            return Err(W::Error::from(MqttWriteError::Invariant));
        }
        let ghost before = buffer.state().written;
        buffer.write_u16(self.packet_identifier.0)?;
        let r = write_reason_tail(self.reason.to_byte(), &self.properties, buffer);
        proof {
            if r is Ok {
                assert(buffer.state().written =~= before + spec_encode_pubcomp(self@));
            }
        }
        r
    }
}

/// A well-formed PUBCOMP, encoded, decodes to itself.
pub proof fn lemma_pubcomp_decode_encode(p: PubcompView)
    requires
        pubcomp_wf(p),
    ensures
        spec_parse_pubcomp(spec_encode_pubcomp(p)) == Ok::<PubcompView, DecodeError>(p),
{
    reveal(spec_parse_pubcomp);
    p.reason.lemma_roundtrip(0);
    lemma_reason_tail_decode_encode(p.reason.spec_to_byte(), p.properties, PropertyContext::Pubcomp);
    let tail = spec_encode_reason_tail(p.reason.spec_to_byte(), p.properties);
    lemma_u16_decode_encode(p.packet_identifier.0, tail);
}

/// A decoded PUBCOMP encodes to the bytes it came from, where those were
/// in the form that the encoder chooses, and is well-formed.
pub proof fn lemma_pubcomp_encode_decode(body: Seq<u8>)
    requires
        spec_parse_pubcomp(body) is Ok,
        pubcomp_is_canonical(body),
    ensures
        spec_encode_pubcomp(spec_parse_pubcomp(body)->Ok_0) == body,
        pubcomp_wf(spec_parse_pubcomp(body)->Ok_0),
{
    reveal(spec_parse_pubcomp);
    lemma_u16_encode_decode(body);
    let rest = spec_take_u16_be(body)->Ok_0.1;
    lemma_reason_tail_encode_decode(rest, PropertyContext::Pubcomp);
    let p = spec_parse_pubcomp(body)->Ok_0;
    p.reason.lemma_roundtrip(spec_parse_reason_tail(rest, PropertyContext::Pubcomp)->Ok_0.0);
}

} // verus!
