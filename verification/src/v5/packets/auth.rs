//! The AUTH packet.

use vstd::prelude::*;
use crate::wire::read::VARINT_MAX;
use crate::v5::properties::spec_encode_entries;
use crate::v5::properties::value_wf;
use crate::v5::packets::reason_tail::lemma_reason_tail_decode_encode;
use crate::v5::packets::reason_tail::lemma_reason_tail_encode_decode;
use crate::v5::packets::reason_tail::parse_reason_tail;
use crate::v5::packets::reason_tail::reason_tail_is_canonical;
use crate::v5::packets::reason_tail::spec_encode_reason_tail;
use crate::v5::packets::reason_tail::spec_parse_reason_tail;
use crate::v5::packets::reason_tail::write_reason_tail;
use crate::v5::properties::Properties;
use crate::v5::properties::PropertyContext;
use crate::v5::properties::PropertyView;
use crate::v5::properties::properties_wf;
use crate::v5::reason_code::AuthReasonCode;
use crate::wire::read::DecodeError;
use crate::wire::read::MResult;
use crate::wire::read::MalformedReason;
use crate::wire::read::Reader;
use crate::wire::write::MqttWriteError;
use crate::wire::write::WResult;
use crate::wire::write::WriteMqttPacket;
use crate::wire::write::write_outcome;

verus! {

/// A step of an extended authentication exchange, as plain data.
pub struct AuthView {
    pub reason: AuthReasonCode,
    pub properties: Seq<PropertyView>,
}

/// A step of an extended authentication exchange.
#[derive(Debug, Clone, PartialEq, Eq)]
pub struct MAuth {
    pub reason: AuthReasonCode,
    pub properties: Properties,
}

impl View for MAuth {
    type V = AuthView;

    open spec fn view(&self) -> AuthView {
        AuthView {
            reason: self.reason,
            properties: self.properties@,
        }
    }
}

/// An AUTH is well-formed when its properties are well-formed for it.
pub open spec fn auth_wf(p: AuthView) -> bool {
    properties_wf(p.properties, PropertyContext::Auth)
}

/// The body of an AUTH: the reason code and the properties in their
/// shortest form.
pub open spec fn spec_encode_auth(p: AuthView) -> Seq<u8> {
    spec_encode_reason_tail(p.reason.spec_to_byte(), p.properties)
}

/// What the body of an AUTH decodes to. The reason code and the
/// properties may be left out: the reason code is then `Success`,
/// and there are no properties.
#[verifier::opaque]
pub open spec fn spec_parse_auth(body: Seq<u8>) -> Result<AuthView, DecodeError> {
    match spec_parse_reason_tail(body, PropertyContext::Auth) {
        Err(e) => Err(e),
        Ok((code, properties)) => match AuthReasonCode::spec_from_byte(code) {
            None => Err(DecodeError::MalformedPacket(MalformedReason::UnknownReasonCode)),
            Some(reason) => Ok(AuthView { reason, properties }),
        },
    }
}

/// Whether the body of an AUTH is in the form that the encoder
/// chooses.
pub open spec fn auth_is_canonical(body: Seq<u8>) -> bool {
    reason_tail_is_canonical(body, PropertyContext::Auth)
}

impl MAuth {
    /// Decodes the body of an AUTH. All of the input is used.
    pub fn parse(input: &mut Reader<'_>) -> (r: MResult<MAuth>)
        ensures
            match spec_parse_auth(old(input)@) {
                Ok(v) => r is Ok && r->Ok_0@ == v && final(input)@.len() == 0,
                Err(e) => r == Err::<MAuth, DecodeError>(e) && final(input)@ == old(input)@,
            },
    {
        proof {
            reveal(spec_parse_auth);
        }
        let mut cur = *input;
        let (code, properties) = parse_reason_tail(&mut cur, PropertyContext::Auth)?;
        let reason = match AuthReasonCode::from_byte(code) {
            None => {
                return Err(DecodeError::MalformedPacket(MalformedReason::UnknownReasonCode));
            },
            Some(c) => c,
        };
        *input = cur;
        Ok(MAuth { reason, properties })
    }

    /// Whether the packet is well-formed.
    pub fn is_valid(&self) -> (b: bool)
        ensures
            b == auth_wf(self@),
    {
        self.properties.is_valid(PropertyContext::Auth) && self.properties.entries_size().is_some()
    }

    /// Number of bytes of the body. The values of the properties must be
    /// well-formed and the properties together must fit their length
    /// field, or there is no such number.
    pub fn binary_size(&self) -> (n: u32)
        requires
            spec_encode_entries(self@.properties).len() <= VARINT_MAX,
            forall|i: int|
                0 <= i < self@.properties.len() ==> value_wf((#[trigger] self@.properties[i]).value),
        ensures
            n == spec_encode_auth(self@).len(),
    {
        if self.reason.to_byte() == 0 && self.properties.is_empty() {
            proof {
                assert(self@.properties.len() == 0);
            }
            0
        } else {
            match self.properties.binary_size() {
                Some(n) => 1 + n,
                None => {
                    proof {
                        assert(false);
                    }
                    0
                },
            }
        }
    }

    /// Writes the body. A packet that is not well-formed is refused before
    /// anything is written.
    pub fn write<W: WriteMqttPacket>(&self, buffer: &mut W) -> (r: WResult<W>)
        ensures
            !auth_wf(self@) ==> r is Err && *final(buffer) == *old(buffer),
            auth_wf(self@) ==> write_outcome(
                old(buffer).state(),
                final(buffer).state(),
                spec_encode_auth(self@),
                r is Ok,
            ),
    {
        if !self.is_valid() {
            return Err(W::Error::from(MqttWriteError::Invariant));
        }
        write_reason_tail(self.reason.to_byte(), &self.properties, buffer)
    }
}

/// A well-formed AUTH, encoded, decodes to itself.
pub proof fn lemma_auth_decode_encode(p: AuthView)
    requires
        auth_wf(p),
    ensures
        spec_parse_auth(spec_encode_auth(p)) == Ok::<AuthView, DecodeError>(p),
{
    reveal(spec_parse_auth);
    p.reason.lemma_roundtrip(0);
    lemma_reason_tail_decode_encode(p.reason.spec_to_byte(), p.properties, PropertyContext::Auth);
}

/// A decoded AUTH encodes to the bytes it came from, where those were
/// in the form that the encoder chooses, and is well-formed.
pub proof fn lemma_auth_encode_decode(body: Seq<u8>)
    requires
        spec_parse_auth(body) is Ok,
        auth_is_canonical(body),
    ensures
        spec_encode_auth(spec_parse_auth(body)->Ok_0) == body,
        auth_wf(spec_parse_auth(body)->Ok_0),
{
    reveal(spec_parse_auth);
    lemma_reason_tail_encode_decode(body, PropertyContext::Auth);
    let p = spec_parse_auth(body)->Ok_0;
    p.reason.lemma_roundtrip(spec_parse_reason_tail(body, PropertyContext::Auth)->Ok_0.0);
}

} // verus!
