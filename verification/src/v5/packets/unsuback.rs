//! The UNSUBACK packet.

use vstd::prelude::*;
use crate::v5::properties::Properties;
use crate::v5::properties::PropertyContext;
use crate::v5::properties::PropertyView;
use crate::v5::properties::properties_wf;
use crate::v5::properties::spec_encode_properties;
use crate::v5::properties::spec_take_properties;
use crate::v5::property_laws::lemma_properties_decode_encode;
use crate::v5::property_laws::lemma_properties_encode_decode;
use crate::v5::property_laws::properties_are_canonical;
use crate::v5::reason_code::UnsubackReasonCode;
use crate::v5::variable_header::PacketIdentifier;
use crate::wire::read::DecodeError;
use crate::wire::read::MResult;
use crate::wire::read::MalformedReason;
use crate::wire::read::Reader;
use crate::wire::read::spec_take_u16_be;
use crate::wire::roundtrip::lemma_u16_decode_encode;
use crate::wire::roundtrip::lemma_u16_encode_decode;
use crate::wire::write::MqttWriteError;
use crate::wire::write::WResult;
use crate::wire::write::WriteMqttPacket;
use crate::wire::write::spec_encode_u16;
use crate::wire::write::write_outcome;

verus! {

/// An UNSUBACK, as plain data.
pub struct UnsubackView {
    pub packet_identifier: PacketIdentifier,
    pub properties: Seq<PropertyView>,
    pub reasons: Seq<UnsubackReasonCode>,
}

/// The answer of a server to an UNSUBSCRIBE: one reason code for each
/// filter of the request, in the order of the request.
#[derive(Debug, Clone, PartialEq, Eq)]
pub struct MUnsuback {
    pub packet_identifier: PacketIdentifier,
    pub properties: Properties,
    pub reasons: Vec<UnsubackReasonCode>,
}

impl View for MUnsuback {
    type V = UnsubackView;

    open spec fn view(&self) -> UnsubackView {
        UnsubackView {
            packet_identifier: self.packet_identifier,
            properties: self.properties@,
            reasons: self.reasons@,
        }
    }
}

/// An UNSUBACK is well-formed when its properties are well-formed for it.
pub open spec fn unsuback_wf(p: UnsubackView) -> bool {
    properties_wf(p.properties, PropertyContext::Unsuback)
}

/// The reason codes, one byte each.
pub open spec fn spec_encode_unsuback_reasons(reasons: Seq<UnsubackReasonCode>) -> Seq<u8> {
    Seq::new(reasons.len(), |i: int| reasons[i].spec_to_byte())
}

/// Reason codes until the input ends, one byte each.
pub open spec fn spec_parse_unsuback_reasons(s: Seq<u8>) -> Result<Seq<UnsubackReasonCode>, DecodeError>
    decreases s.len(),
{
    if s.len() == 0 {
        Ok(Seq::empty())
    } else {
        match UnsubackReasonCode::spec_from_byte(s[0]) {
            None => Err(DecodeError::MalformedPacket(MalformedReason::UnknownReasonCode)),
            Some(a) => match spec_parse_unsuback_reasons(s.skip(1)) {
                Err(e) => Err(e),
                Ok(rest) => Ok(seq![a] + rest),
            },
        }
    }
}

/// The body of an UNSUBACK: the packet identifier, the properties, and
/// one reason code for each filter of the request.
pub open spec fn spec_encode_unsuback(p: UnsubackView) -> Seq<u8> {
    spec_encode_u16(p.packet_identifier.0) + spec_encode_properties(p.properties)
        + spec_encode_unsuback_reasons(p.reasons)
}

/// What the body of an UNSUBACK decodes to.
#[verifier::opaque]
pub open spec fn spec_parse_unsuback(body: Seq<u8>) -> Result<UnsubackView, DecodeError> {
    match spec_take_u16_be(body) {
        Err(e) => Err(e),
        Ok((id, r1)) => match spec_take_properties(r1, PropertyContext::Unsuback) {
            Err(e) => Err(e),
            Ok((properties, r2)) => match spec_parse_unsuback_reasons(r2) {
                Err(e) => Err(e),
                Ok(reasons) => Ok(
                    UnsubackView { packet_identifier: PacketIdentifier(id), properties, reasons },
                ),
            },
        },
    }
}

/// Whether the body of an UNSUBACK has its properties in shortest form.
pub open spec fn unsuback_is_canonical(body: Seq<u8>) -> bool {
    body.len() >= 2 ==> properties_are_canonical(body.skip(2))
}

fn parse_reasons(input: &mut Reader<'_>) -> (r: MResult<Vec<UnsubackReasonCode>>)
    ensures
        match spec_parse_unsuback_reasons(old(input)@) {
            Ok(xs) => r is Ok && r->Ok_0@ == xs && final(input)@.len() == 0,
            Err(e) => r == Err::<Vec<UnsubackReasonCode>, DecodeError>(e),
        },
{
    let ghost start = input@;
    let mut reasons: Vec<UnsubackReasonCode> = Vec::new();
    while !input.is_empty()
        invariant
            start == old(input)@,
            spec_parse_unsuback_reasons(start) == (match spec_parse_unsuback_reasons(input@) {
                Ok(xs) => Ok::<Seq<UnsubackReasonCode>, DecodeError>(reasons@ + xs),
                Err(e) => Err(e),
            }),
        decreases input@.len(),
    {
        let b: u8 = input.take_u8()?;
        let reason = match UnsubackReasonCode::from_byte(b) {
            None => {
                return Err(DecodeError::MalformedPacket(MalformedReason::UnknownReasonCode));
            },
            Some(a) => a,
        };
        proof {
            match spec_parse_unsuback_reasons(input@) {
                Ok(xs) => {
                    assert(reasons@ + (seq![reason] + xs) =~= reasons@.push(reason) + xs);
                },
                Err(e) => {},
            }
        }
        reasons.push(reason);
    }
    proof {
        assert(reasons@ + Seq::<UnsubackReasonCode>::empty() =~= reasons@);
    }
    Ok(reasons)
}

fn write_reasons<W: WriteMqttPacket>(list: &Vec<UnsubackReasonCode>, buffer: &mut W) -> (r: WResult<W>)
    ensures
        write_outcome(
            old(buffer).state(),
            final(buffer).state(),
            spec_encode_unsuback_reasons(list@),
            r is Ok,
        ),
{
    let ghost all = spec_encode_unsuback_reasons(list@);
    let mut i: usize = 0;
    proof {
        assert(buffer.state().written + all.take(0) =~= buffer.state().written);
    }
    while i < list.len()
        invariant
            i <= list@.len(),
            all == spec_encode_unsuback_reasons(list@),
            write_outcome(old(buffer).state(), buffer.state(), all.take(i as int), true),
        decreases list@.len() - i,
    {
        buffer.write_byte(list[i].to_byte())?;
        proof {
            assert(all.take(i + 1) =~= all.take(i as int) + seq![list@[i as int].spec_to_byte()]);
            assert(buffer.state().written =~= old(buffer).state().written + all.take(i + 1));
        }
        i = i + 1;
    }
    proof {
        assert(all.take(list@.len() as int) =~= all);
    }
    Ok(())
}

impl MUnsuback {
    /// Decodes the body of an UNSUBACK. All of the input is used.
    pub fn parse(input: &mut Reader<'_>) -> (r: MResult<MUnsuback>)
        ensures
            match spec_parse_unsuback(old(input)@) {
                Ok(v) => r is Ok && r->Ok_0@ == v && final(input)@.len() == 0,
                Err(e) => r == Err::<MUnsuback, DecodeError>(e) && final(input)@ == old(input)@,
            },
    {
        proof {
            reveal(spec_parse_unsuback);
        }
        let mut cur = *input;
        let id: u16 = cur.take_u16_be()?;
        let properties = Properties::parse(&mut cur, PropertyContext::Unsuback)?;
        let reasons = parse_reasons(&mut cur)?;
        *input = cur;
        Ok(MUnsuback { packet_identifier: PacketIdentifier(id), properties, reasons })
    }

    /// Whether the packet is well-formed.
    pub fn is_valid(&self) -> (b: bool)
        ensures
            b == unsuback_wf(self@),
    {
        self.properties.is_valid(PropertyContext::Unsuback) && self.properties.entries_size().is_some()
    }

    /// Writes the body. A packet that is not well-formed is refused before
    /// anything is written.
    pub fn write<W: WriteMqttPacket>(&self, buffer: &mut W) -> (r: WResult<W>)
        ensures
            !unsuback_wf(self@) ==> r is Err && *final(buffer) == *old(buffer),
            unsuback_wf(self@) ==> write_outcome(
                old(buffer).state(),
                final(buffer).state(),
                spec_encode_unsuback(self@),
                r is Ok,
            ),
    {
        if !self.is_valid() {
            return Err(W::Error::from(MqttWriteError::Invariant));
        }
        let ghost before = buffer.state().written;
        buffer.write_u16(self.packet_identifier.0)?;
        self.properties.write(buffer)?;
        let r = write_reasons(&self.reasons, buffer);
        proof {
            if r is Ok {
                assert(buffer.state().written =~= before + spec_encode_unsuback(self@));
            }
        }
        r
    }
}

/// Encoded reason codes decode to the same codes, and decoded codes
/// encode to the bytes they came from.
pub proof fn lemma_unsuback_reasons_roundtrip(reasons: Seq<UnsubackReasonCode>, s: Seq<u8>)
    ensures
        spec_parse_unsuback_reasons(spec_encode_unsuback_reasons(reasons)) == Ok::<
            Seq<UnsubackReasonCode>,
            DecodeError,
        >(reasons),
        spec_parse_unsuback_reasons(s) matches Ok(q) ==> spec_encode_unsuback_reasons(q) == s,
    decreases reasons.len() + s.len(),
{
    if reasons.len() == 0 {
        assert(reasons =~= Seq::<UnsubackReasonCode>::empty());
    } else {
        let e = spec_encode_unsuback_reasons(reasons);
        reasons[0].lemma_roundtrip(0);
        assert(e.skip(1) =~= spec_encode_unsuback_reasons(reasons.skip(1)));
        lemma_unsuback_reasons_roundtrip(reasons.skip(1), Seq::empty());
        assert(seq![reasons[0]] + reasons.skip(1) =~= reasons);
    }
    if s.len() > 0 && spec_parse_unsuback_reasons(s) is Ok {
        let q = spec_parse_unsuback_reasons(s)->Ok_0;
        lemma_unsuback_reasons_roundtrip(Seq::empty(), s.skip(1));
        let tail = spec_parse_unsuback_reasons(s.skip(1))->Ok_0;
        assert(q == seq![q[0]] + tail);
        q[0].lemma_roundtrip(s[0]);
        assert(q[0].spec_to_byte() == s[0]);
        assert forall|i: int| 0 <= i < s.len() implies spec_encode_unsuback_reasons(q)[i] == s[i] by {
            if i > 0 {
                assert(q[i] == tail[i - 1]);
                assert(spec_encode_unsuback_reasons(tail)[i - 1] == s.skip(1)[i - 1]);
            }
        }
        assert(spec_encode_unsuback_reasons(q) =~= s);
    } else if spec_parse_unsuback_reasons(s) is Ok {
        assert(spec_encode_unsuback_reasons(spec_parse_unsuback_reasons(s)->Ok_0) =~= s);
    }
}

/// A well-formed UNSUBACK, encoded, decodes to itself.
pub proof fn lemma_unsuback_decode_encode(p: UnsubackView)
    requires
        unsuback_wf(p),
    ensures
        spec_parse_unsuback(spec_encode_unsuback(p)) == Ok::<UnsubackView, DecodeError>(p),
{
    reveal(spec_parse_unsuback);
    let list = spec_encode_unsuback_reasons(p.reasons);
    let block = spec_encode_properties(p.properties);
    assert(spec_encode_unsuback(p) =~= spec_encode_u16(p.packet_identifier.0) + (block + list));
    lemma_u16_decode_encode(p.packet_identifier.0, block + list);
    lemma_properties_decode_encode(p.properties, PropertyContext::Unsuback, list);
    lemma_unsuback_reasons_roundtrip(p.reasons, Seq::empty());
}

/// A decoded UNSUBACK encodes to the bytes it came from, where its
/// properties were in shortest form, and is well-formed.
pub proof fn lemma_unsuback_encode_decode(body: Seq<u8>)
    requires
        spec_parse_unsuback(body) is Ok,
        unsuback_is_canonical(body),
    ensures
        spec_encode_unsuback(spec_parse_unsuback(body)->Ok_0) == body,
        unsuback_wf(spec_parse_unsuback(body)->Ok_0),
{
    reveal(spec_parse_unsuback);
    let p = spec_parse_unsuback(body)->Ok_0;
    lemma_u16_encode_decode(body);
    let r1 = spec_take_u16_be(body)->Ok_0.1;
    assert(r1 =~= body.skip(2));
    lemma_properties_encode_decode(r1, PropertyContext::Unsuback);
    let r2 = spec_take_properties(r1, PropertyContext::Unsuback)->Ok_0.1;
    lemma_unsuback_reasons_roundtrip(Seq::empty(), r2);
    assert(spec_encode_unsuback(p) =~= spec_encode_u16(p.packet_identifier.0) + (
    spec_encode_properties(p.properties) + r2));
}

} // verus!
