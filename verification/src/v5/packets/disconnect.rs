//! The DISCONNECT packet.

use vstd::prelude::*;
use crate::wire::read::VARINT_MAX;
use crate::v5::properties::spec_encode_entries;
use crate::v5::properties::value_wf;
use crate::v5::packets::reason_tail::lemma_reason_tail_decode_encode;
use crate::v5::packets::reason_tail::lemma_reason_tail_encode_decode;
use crate::v5::packets::reason_tail::parse_reason_tail;
use crate::v5::packets::reason_tail::reason_tail_is_canonical;
use crate::v5::packets::reason_tail::spec_encode_reason_tail;
use crate::v5::packets::reason_tail::spec_parse_reason_tail;
use crate::v5::packets::reason_tail::write_reason_tail;
use crate::v5::properties::Properties;
use crate::v5::properties::PropertyContext;
use crate::v5::properties::PropertyView;
use crate::v5::properties::properties_wf;
use crate::v5::reason_code::DisconnectReasonCode;
use crate::wire::read::DecodeError;
use crate::wire::read::MResult;
use crate::wire::read::MalformedReason;
use crate::wire::read::Reader;
use crate::wire::write::MqttWriteError;
use crate::wire::write::WResult;
use crate::wire::write::WriteMqttPacket;
use crate::wire::write::write_outcome;

verus! {

/// The notice that a connection ends, and why, as plain data.
pub struct DisconnectView {
    pub reason_code: DisconnectReasonCode,
    pub properties: Seq<PropertyView>,
}

/// The notice that a connection ends, and why.
#[derive(Debug, Clone, PartialEq, Eq)]
pub struct MDisconnect {
    pub reason_code: DisconnectReasonCode,
    pub properties: Properties,
}

impl View for MDisconnect {
    type V = DisconnectView;

    open spec fn view(&self) -> DisconnectView {
        DisconnectView {
            reason_code: self.reason_code,
            properties: self.properties@,
        }
    }
}

/// A DISCONNECT is well-formed when its properties are well-formed for it.
pub open spec fn disconnect_wf(p: DisconnectView) -> bool {
    properties_wf(p.properties, PropertyContext::Disconnect)
}

/// The body of a DISCONNECT: the reason code and the properties in their
/// shortest form.
pub open spec fn spec_encode_disconnect(p: DisconnectView) -> Seq<u8> {
    spec_encode_reason_tail(p.reason_code.spec_to_byte(), p.properties)
}

/// What the body of a DISCONNECT decodes to. The reason code and the
/// properties may be left out: the reason code is then `NormalDisconnection`,
/// and there are no properties.
#[verifier::opaque]
pub open spec fn spec_parse_disconnect(body: Seq<u8>) -> Result<DisconnectView, DecodeError> {
    match spec_parse_reason_tail(body, PropertyContext::Disconnect) {
        Err(e) => Err(e),
        Ok((code, properties)) => match DisconnectReasonCode::spec_from_byte(code) {
            None => Err(DecodeError::MalformedPacket(MalformedReason::UnknownReasonCode)),
            Some(reason_code) => Ok(DisconnectView { reason_code, properties }),
        },
    }
}

/// Whether the body of a DISCONNECT is in the form that the encoder
/// chooses.
pub open spec fn disconnect_is_canonical(body: Seq<u8>) -> bool {
    reason_tail_is_canonical(body, PropertyContext::Disconnect)
}

impl MDisconnect {
    /// Decodes the body of a DISCONNECT. All of the input is used.
    pub fn parse(input: &mut Reader<'_>) -> (r: MResult<MDisconnect>)
        ensures
            match spec_parse_disconnect(old(input)@) {
                Ok(v) => r is Ok && r->Ok_0@ == v && final(input)@.len() == 0,
                Err(e) => r == Err::<MDisconnect, DecodeError>(e) && final(input)@ == old(input)@,
            },
    {
        proof {
            reveal(spec_parse_disconnect);
        }
        let mut cur = *input;
        let (code, properties) = parse_reason_tail(&mut cur, PropertyContext::Disconnect)?;
        let reason_code = match DisconnectReasonCode::from_byte(code) {
            None => {
                return Err(DecodeError::MalformedPacket(MalformedReason::UnknownReasonCode));
            },
            Some(c) => c,
        };
        *input = cur;
        Ok(MDisconnect { reason_code, properties })
    }

    /// Whether the packet is well-formed.
    pub fn is_valid(&self) -> (b: bool)
        ensures
            b == disconnect_wf(self@),
    {
        self.properties.is_valid(PropertyContext::Disconnect) && self.properties.entries_size().is_some()
    }

    /// Number of bytes of the body. The values of the properties must be
    /// well-formed and the properties together must fit their length
    /// field, or there is no such number.
    pub fn binary_size(&self) -> (n: u32)
        requires
            spec_encode_entries(self@.properties).len() <= VARINT_MAX,
            forall|i: int|
                0 <= i < self@.properties.len() ==> value_wf((#[trigger] self@.properties[i]).value),
        ensures
            n == spec_encode_disconnect(self@).len(),
    {
        if self.reason_code.to_byte() == 0 && self.properties.is_empty() {
            proof {
                assert(self@.properties.len() == 0);
            }
            0
        } else {
            match self.properties.binary_size() {
                Some(n) => 1 + n,
                None => {
                    proof {
                        assert(false);
                    }
                    0
                },
            }
        }
    }

    /// Writes the body. A packet that is not well-formed is refused before
    /// anything is written.
    pub fn write<W: WriteMqttPacket>(&self, buffer: &mut W) -> (r: WResult<W>)
        ensures
            !disconnect_wf(self@) ==> r is Err && *final(buffer) == *old(buffer),
            disconnect_wf(self@) ==> write_outcome(
                old(buffer).state(),
                final(buffer).state(),
                spec_encode_disconnect(self@),
                r is Ok,
            ),
    {
        if !self.is_valid() {
            return Err(W::Error::from(MqttWriteError::Invariant));
        }
        write_reason_tail(self.reason_code.to_byte(), &self.properties, buffer)
    }
}

/// A well-formed DISCONNECT, encoded, decodes to itself.
pub proof fn lemma_disconnect_decode_encode(p: DisconnectView)
    requires
        disconnect_wf(p),
    ensures
        spec_parse_disconnect(spec_encode_disconnect(p)) == Ok::<DisconnectView, DecodeError>(p),
{
    reveal(spec_parse_disconnect);
    p.reason_code.lemma_roundtrip(0);
    lemma_reason_tail_decode_encode(p.reason_code.spec_to_byte(), p.properties, PropertyContext::Disconnect);
}

/// A decoded DISCONNECT encodes to the bytes it came from, where those were
/// in the form that the encoder chooses, and is well-formed.
pub proof fn lemma_disconnect_encode_decode(body: Seq<u8>)
    requires
        spec_parse_disconnect(body) is Ok,
        disconnect_is_canonical(body),
    ensures
        spec_encode_disconnect(spec_parse_disconnect(body)->Ok_0) == body,
        disconnect_wf(spec_parse_disconnect(body)->Ok_0),
{
    reveal(spec_parse_disconnect);
    lemma_reason_tail_encode_decode(body, PropertyContext::Disconnect);
    let p = spec_parse_disconnect(body)->Ok_0;
    p.reason_code.lemma_roundtrip(spec_parse_reason_tail(body, PropertyContext::Disconnect)->Ok_0.0);
}

} // verus!
