//! The SUBACK packet.

use vstd::prelude::*;
use crate::v5::properties::Properties;
use crate::v5::properties::PropertyContext;
use crate::v5::properties::PropertyView;
use crate::v5::properties::properties_wf;
use crate::v5::properties::spec_encode_properties;
use crate::v5::properties::spec_take_properties;
use crate::v5::property_laws::lemma_properties_decode_encode;
use crate::v5::property_laws::lemma_properties_encode_decode;
use crate::v5::property_laws::properties_are_canonical;
use crate::v5::reason_code::SubackReasonCode;
use crate::v5::variable_header::PacketIdentifier;
use crate::wire::read::DecodeError;
use crate::wire::read::MResult;
use crate::wire::read::MalformedReason;
use crate::wire::read::Reader;
use crate::wire::read::spec_take_u16_be;
use crate::wire::roundtrip::lemma_u16_decode_encode;
use crate::wire::roundtrip::lemma_u16_encode_decode;
use crate::wire::write::MqttWriteError;
use crate::wire::write::WResult;
use crate::wire::write::WriteMqttPacket;
use crate::wire::write::spec_encode_u16;
use crate::wire::write::write_outcome;

verus! {

/// A SUBACK, as plain data.
pub struct SubackView {
    pub packet_identifier: PacketIdentifier,
    pub properties: Seq<PropertyView>,
    pub reasons: Seq<SubackReasonCode>,
}

/// The answer of a server to a SUBSCRIBE: one reason code for each entry of
/// the request, in the order of the request.
#[derive(Debug, Clone, PartialEq, Eq)]
pub struct MSuback {
    pub packet_identifier: PacketIdentifier,
    pub properties: Properties,
    pub reasons: Vec<SubackReasonCode>,
}

impl View for MSuback {
    type V = SubackView;

    open spec fn view(&self) -> SubackView {
        SubackView {
            packet_identifier: self.packet_identifier,
            properties: self.properties@,
            reasons: self.reasons@,
        }
    }
}

/// A SUBACK is well-formed when its properties are well-formed for it.
pub open spec fn suback_wf(p: SubackView) -> bool {
    properties_wf(p.properties, PropertyContext::Suback)
}

/// The reason codes, one byte each.
pub open spec fn spec_encode_suback_reasons(reasons: Seq<SubackReasonCode>) -> Seq<u8> {
    Seq::new(reasons.len(), |i: int| reasons[i].spec_to_byte())
}

/// Reason codes until the input ends, one byte each.
pub open spec fn spec_parse_suback_reasons(s: Seq<u8>) -> Result<Seq<SubackReasonCode>, DecodeError>
    decreases s.len(),
{
    if s.len() == 0 {
        Ok(Seq::empty())
    } else {
        match SubackReasonCode::spec_from_byte(s[0]) {
            None => Err(DecodeError::MalformedPacket(MalformedReason::UnknownReasonCode)),
            Some(a) => match spec_parse_suback_reasons(s.skip(1)) {
                Err(e) => Err(e),
                Ok(rest) => Ok(seq![a] + rest),
            },
        }
    }
}

/// The body of a SUBACK: the packet identifier, the properties, and
/// one reason code for each entry of the request.
pub open spec fn spec_encode_suback(p: SubackView) -> Seq<u8> {
    spec_encode_u16(p.packet_identifier.0) + spec_encode_properties(p.properties)
        + spec_encode_suback_reasons(p.reasons)
}

/// What the body of a SUBACK decodes to.
#[verifier::opaque]
pub open spec fn spec_parse_suback(body: Seq<u8>) -> Result<SubackView, DecodeError> {
    match spec_take_u16_be(body) {
        Err(e) => Err(e),
        Ok((id, r1)) => match spec_take_properties(r1, PropertyContext::Suback) {
            Err(e) => Err(e),
            Ok((properties, r2)) => match spec_parse_suback_reasons(r2) {
                Err(e) => Err(e),
                Ok(reasons) => Ok(
                    SubackView { packet_identifier: PacketIdentifier(id), properties, reasons },
                ),
            },
        },
    }
}

/// Whether the body of a SUBACK has its properties in shortest form.
pub open spec fn suback_is_canonical(body: Seq<u8>) -> bool {
    body.len() >= 2 ==> properties_are_canonical(body.skip(2))
}

fn parse_reasons(input: &mut Reader<'_>) -> (r: MResult<Vec<SubackReasonCode>>)
    ensures
        match spec_parse_suback_reasons(old(input)@) {
            Ok(xs) => r is Ok && r->Ok_0@ == xs && final(input)@.len() == 0,
            Err(e) => r == Err::<Vec<SubackReasonCode>, DecodeError>(e),
        },
{
    let ghost start = input@;
    let mut reasons: Vec<SubackReasonCode> = Vec::new();
    while !input.is_empty()
        invariant
            start == old(input)@,
            spec_parse_suback_reasons(start) == (match spec_parse_suback_reasons(input@) {
                Ok(xs) => Ok::<Seq<SubackReasonCode>, DecodeError>(reasons@ + xs),
                Err(e) => Err(e),
            }),
        decreases input@.len(),
    {
        let b: u8 = input.take_u8()?;
        let reason = match SubackReasonCode::from_byte(b) {
            None => {
                return Err(DecodeError::MalformedPacket(MalformedReason::UnknownReasonCode));
            },
            Some(a) => a,
        };
        proof {
            match spec_parse_suback_reasons(input@) {
                Ok(xs) => {
                    assert(reasons@ + (seq![reason] + xs) =~= reasons@.push(reason) + xs);
                },
                Err(e) => {},
            }
        }
        reasons.push(reason);
    }
    proof {
        assert(reasons@ + Seq::<SubackReasonCode>::empty() =~= reasons@);
    }
    Ok(reasons)
}

fn write_reasons<W: WriteMqttPacket>(list: &Vec<SubackReasonCode>, buffer: &mut W) -> (r: WResult<W>)
    ensures
        write_outcome(
            old(buffer).state(),
            final(buffer).state(),
            spec_encode_suback_reasons(list@),
            r is Ok,
        ),
{
    let ghost all = spec_encode_suback_reasons(list@);
    let mut i: usize = 0;
    proof {
        assert(buffer.state().written + all.take(0) =~= buffer.state().written);
    }
    while i < list.len()
        invariant
            i <= list@.len(),
            all == spec_encode_suback_reasons(list@),
            write_outcome(old(buffer).state(), buffer.state(), all.take(i as int), true),
        decreases list@.len() - i,
    {
        buffer.write_byte(list[i].to_byte())?;
        proof {
            assert(all.take(i + 1) =~= all.take(i as int) + seq![list@[i as int].spec_to_byte()]);
            assert(buffer.state().written =~= old(buffer).state().written + all.take(i + 1));
        }
        i = i + 1;
    }
    proof {
        assert(all.take(list@.len() as int) =~= all);
    }
    Ok(())
}

impl MSuback {
    /// Decodes the body of a SUBACK. All of the input is used.
    pub fn parse(input: &mut Reader<'_>) -> (r: MResult<MSuback>)
        ensures
            match spec_parse_suback(old(input)@) {
                Ok(v) => r is Ok && r->Ok_0@ == v && final(input)@.len() == 0,
                Err(e) => r == Err::<MSuback, DecodeError>(e) && final(input)@ == old(input)@,
            },
    {
        proof {
            reveal(spec_parse_suback);
        }
        let mut cur = *input;
        let id: u16 = cur.take_u16_be()?;
        let properties = Properties::parse(&mut cur, PropertyContext::Suback)?;
        let reasons = parse_reasons(&mut cur)?;
        *input = cur;
        Ok(MSuback { packet_identifier: PacketIdentifier(id), properties, reasons })
    }

    /// Whether the packet is well-formed.
    pub fn is_valid(&self) -> (b: bool)
        ensures
            b == suback_wf(self@),
    {
        self.properties.is_valid(PropertyContext::Suback) && self.properties.entries_size().is_some()
    }

    /// Writes the body. A packet that is not well-formed is refused before
    /// anything is written.
    pub fn write<W: WriteMqttPacket>(&self, buffer: &mut W) -> (r: WResult<W>)
        ensures
            !suback_wf(self@) ==> r is Err && *final(buffer) == *old(buffer),
            suback_wf(self@) ==> write_outcome(
                old(buffer).state(),
                final(buffer).state(),
                spec_encode_suback(self@),
                r is Ok,
            ),
    {
        if !self.is_valid() {
            return Err(W::Error::from(MqttWriteError::Invariant));
        }
        let ghost before = buffer.state().written;
        buffer.write_u16(self.packet_identifier.0)?;
        self.properties.write(buffer)?;
        let r = write_reasons(&self.reasons, buffer);
        proof {
            if r is Ok {
                assert(buffer.state().written =~= before + spec_encode_suback(self@));
            }
        }
        r
    }
}

/// Encoded reason codes decode to the same codes, and decoded codes
/// encode to the bytes they came from.
pub proof fn lemma_suback_reasons_roundtrip(reasons: Seq<SubackReasonCode>, s: Seq<u8>)
    ensures
        spec_parse_suback_reasons(spec_encode_suback_reasons(reasons)) == Ok::<
            Seq<SubackReasonCode>,
            DecodeError,
        >(reasons),
        spec_parse_suback_reasons(s) matches Ok(q) ==> spec_encode_suback_reasons(q) == s,
    decreases reasons.len() + s.len(),
{
    if reasons.len() == 0 {
        assert(reasons =~= Seq::<SubackReasonCode>::empty());
    } else {
        let e = spec_encode_suback_reasons(reasons);
        reasons[0].lemma_roundtrip(0);
        assert(e.skip(1) =~= spec_encode_suback_reasons(reasons.skip(1)));
        lemma_suback_reasons_roundtrip(reasons.skip(1), Seq::empty());
        assert(seq![reasons[0]] + reasons.skip(1) =~= reasons);
    }
    if s.len() > 0 && spec_parse_suback_reasons(s) is Ok {
        let q = spec_parse_suback_reasons(s)->Ok_0;
        lemma_suback_reasons_roundtrip(Seq::empty(), s.skip(1));
        let tail = spec_parse_suback_reasons(s.skip(1))->Ok_0;
        assert(q == seq![q[0]] + tail);
        q[0].lemma_roundtrip(s[0]);
        assert(q[0].spec_to_byte() == s[0]);
        assert forall|i: int| 0 <= i < s.len() implies spec_encode_suback_reasons(q)[i] == s[i] by {
            if i > 0 {
                assert(q[i] == tail[i - 1]);
                assert(spec_encode_suback_reasons(tail)[i - 1] == s.skip(1)[i - 1]);
            }
        }
        assert(spec_encode_suback_reasons(q) =~= s);
    } else if spec_parse_suback_reasons(s) is Ok {
        assert(spec_encode_suback_reasons(spec_parse_suback_reasons(s)->Ok_0) =~= s);
    }
}

/// A well-formed SUBACK, encoded, decodes to itself.
pub proof fn lemma_suback_decode_encode(p: SubackView)
    requires
        suback_wf(p),
    ensures
        spec_parse_suback(spec_encode_suback(p)) == Ok::<SubackView, DecodeError>(p),
{
    reveal(spec_parse_suback);
    let list = spec_encode_suback_reasons(p.reasons);
    let block = spec_encode_properties(p.properties);
    assert(spec_encode_suback(p) =~= spec_encode_u16(p.packet_identifier.0) + (block + list));
    lemma_u16_decode_encode(p.packet_identifier.0, block + list);
    lemma_properties_decode_encode(p.properties, PropertyContext::Suback, list);
    lemma_suback_reasons_roundtrip(p.reasons, Seq::empty());
}

/// A decoded SUBACK encodes to the bytes it came from, where its
/// properties were in shortest form, and is well-formed.
pub proof fn lemma_suback_encode_decode(body: Seq<u8>)
    requires
        spec_parse_suback(body) is Ok,
        suback_is_canonical(body),
    ensures
        spec_encode_suback(spec_parse_suback(body)->Ok_0) == body,
        suback_wf(spec_parse_suback(body)->Ok_0),
{
    reveal(spec_parse_suback);
    let p = spec_parse_suback(body)->Ok_0;
    lemma_u16_encode_decode(body);
    let r1 = spec_take_u16_be(body)->Ok_0.1;
    assert(r1 =~= body.skip(2));
    lemma_properties_encode_decode(r1, PropertyContext::Suback);
    let r2 = spec_take_properties(r1, PropertyContext::Suback)->Ok_0.1;
    lemma_suback_reasons_roundtrip(Seq::empty(), r2);
    assert(spec_encode_suback(p) =~= spec_encode_u16(p.packet_identifier.0) + (
    spec_encode_properties(p.properties) + r2));
}

} // verus!
