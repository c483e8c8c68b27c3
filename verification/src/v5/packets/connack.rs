//! The CONNACK packet.

use vstd::prelude::*;
use crate::v5::properties::Properties;
use crate::v5::properties::PropertyContext;
use crate::v5::properties::PropertyView;
use crate::v5::properties::properties_wf;
use crate::v5::properties::spec_encode_properties;
use crate::v5::properties::spec_take_properties;
use crate::v5::property_laws::lemma_properties_decode_encode;
use crate::v5::property_laws::lemma_properties_encode_decode;
use crate::v5::property_laws::properties_are_canonical;
use crate::v5::reason_code::ConnackReasonCode;
use crate::wire::read::DecodeError;
use crate::wire::read::MResult;
use crate::wire::read::MalformedReason;
use crate::wire::read::Reader;
use crate::wire::write::MqttWriteError;
use crate::wire::write::WResult;
use crate::wire::write::WriteMqttPacket;
use crate::wire::write::write_outcome;

verus! {

/// The answer of a server to a CONNECT, as plain data.
pub struct ConnackView {
    pub session_present: bool,
    pub reason_code: ConnackReasonCode,
    pub properties: Seq<PropertyView>,
}

/// The answer of a server to a CONNECT.
#[derive(Debug, Clone, PartialEq, Eq)]
pub struct MConnack {
    pub session_present: bool,
    pub reason_code: ConnackReasonCode,
    pub properties: Properties,
}

impl View for MConnack {
    type V = ConnackView;

    open spec fn view(&self) -> ConnackView {
        ConnackView {
            session_present: self.session_present,
            reason_code: self.reason_code,
            properties: self.properties@,
        }
    }
}

/// A CONNACK is well-formed when its properties are well-formed for it.
pub open spec fn connack_wf(p: ConnackView) -> bool {
    properties_wf(p.properties, PropertyContext::Connack)
}

/// The body of a CONNACK: the acknowledge flags, the reason code and the
/// properties.
pub open spec fn spec_encode_connack(p: ConnackView) -> Seq<u8> {
    seq![if p.session_present { 1u8 } else { 0u8 }, p.reason_code.spec_to_byte()]
        + spec_encode_properties(p.properties)
}

/// What the body of a CONNACK decodes to. Of the acknowledge flags only
/// the lowest bit may be set.
#[verifier::opaque]
pub open spec fn spec_parse_connack(body: Seq<u8>) -> Result<ConnackView, DecodeError> {
    if body.len() < 2 {
        Err(DecodeError::Incomplete)
    } else if body[0] > 1 {
        Err(DecodeError::MalformedPacket(MalformedReason::ReservedBitsSet))
    } else {
        match ConnackReasonCode::spec_from_byte(body[1]) {
            None => Err(DecodeError::MalformedPacket(MalformedReason::UnknownReasonCode)),
            Some(reason_code) => match spec_take_properties(body.skip(2), PropertyContext::Connack) {
                Err(e) => Err(e),
                Ok((properties, rest)) => if rest.len() > 0 {
                    Err(DecodeError::MalformedPacket(MalformedReason::TrailingBytes))
                } else {
                    Ok(ConnackView { session_present: body[0] == 1, reason_code, properties })
                },
            },
        }
    }
}

/// Whether the body of a CONNACK is in the form that the encoder chooses.
pub open spec fn connack_is_canonical(body: Seq<u8>) -> bool {
    body.len() >= 2 ==> properties_are_canonical(body.skip(2))
}

impl MConnack {
    /// Decodes the body of a CONNACK. All of the input is used.
    pub fn parse(input: &mut Reader<'_>) -> (r: MResult<MConnack>)
        ensures
            match spec_parse_connack(old(input)@) {
                Ok(v) => r is Ok && r->Ok_0@ == v && final(input)@.len() == 0,
                Err(e) => r == Err::<MConnack, DecodeError>(e) && final(input)@ == old(input)@,
            },
    {
        proof {
            reveal(spec_parse_connack);
        }
        let mut cur = *input;
        if cur.len() < 2 {
            return Err(DecodeError::Incomplete);
        }
        let flags: u8 = cur.take_u8()?;
        let code: u8 = cur.take_u8()?;
        proof {
            assert(cur@ =~= old(input)@.skip(2));
        }
        if flags > 1 {
            return Err(DecodeError::MalformedPacket(MalformedReason::ReservedBitsSet));
        }
        let reason_code = match ConnackReasonCode::from_byte(code) {
            None => {
                return Err(DecodeError::MalformedPacket(MalformedReason::UnknownReasonCode));
            },
            Some(c) => c,
        };
        let properties = Properties::parse(&mut cur, PropertyContext::Connack)?;
        if !cur.is_empty() {
            return Err(DecodeError::MalformedPacket(MalformedReason::TrailingBytes));
        }
        *input = cur;
        Ok(MConnack { session_present: flags == 1, reason_code, properties })
    }

    /// Whether the packet is well-formed.
    pub fn is_valid(&self) -> (b: bool)
        ensures
            b == connack_wf(self@),
    {
        self.properties.is_valid(PropertyContext::Connack) && self.properties.entries_size().is_some()
    }

    /// Writes the body. A packet that is not well-formed is refused before
    /// anything is written.
    pub fn write<W: WriteMqttPacket>(&self, buffer: &mut W) -> (r: WResult<W>)
        ensures
            !connack_wf(self@) ==> r is Err && *final(buffer) == *old(buffer),
            connack_wf(self@) ==> write_outcome(
                old(buffer).state(),
                final(buffer).state(),
                spec_encode_connack(self@),
                r is Ok,
            ),
    {
        if !self.is_valid() {
            return Err(W::Error::from(MqttWriteError::Invariant));
        }
        let ghost before = buffer.state().written;
        buffer.write_byte(if self.session_present { 1 } else { 0 })?;
        buffer.write_byte(self.reason_code.to_byte())?;
        let r = self.properties.write(buffer);
        proof {
            if r is Ok {
                assert(buffer.state().written =~= before + spec_encode_connack(self@));
            }
        }
        r
    }
}

/// A well-formed CONNACK, encoded, decodes to itself.
pub proof fn lemma_connack_decode_encode(p: ConnackView)
    requires
        connack_wf(p),
    ensures
        spec_parse_connack(spec_encode_connack(p)) == Ok::<ConnackView, DecodeError>(p),
{
    reveal(spec_parse_connack);
    p.reason_code.lemma_roundtrip(0);
    let body = spec_encode_connack(p);
    lemma_properties_decode_encode(p.properties, PropertyContext::Connack, Seq::empty());
    assert(body.skip(2) =~= spec_encode_properties(p.properties) + Seq::<u8>::empty());
}

/// A decoded CONNACK encodes to the bytes it came from, where those were
/// in the form that the encoder chooses, and is well-formed.
pub proof fn lemma_connack_encode_decode(body: Seq<u8>)
    requires
        spec_parse_connack(body) is Ok,
        connack_is_canonical(body),
    ensures
        spec_encode_connack(spec_parse_connack(body)->Ok_0) == body,
        connack_wf(spec_parse_connack(body)->Ok_0),
{
    reveal(spec_parse_connack);
    let p = spec_parse_connack(body)->Ok_0;
    p.reason_code.lemma_roundtrip(body[1]);
    lemma_properties_encode_decode(body.skip(2), PropertyContext::Connack);
    assert(spec_encode_connack(p) =~= seq![body[0], body[1]] + body.skip(2));
    assert(seq![body[0], body[1]] + body.skip(2) =~= body);
}

} // verus!
