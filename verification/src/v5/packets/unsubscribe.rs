//! The UNSUBSCRIBE packet.

use vstd::prelude::*;
use crate::v5::properties::Properties;
use crate::v5::properties::PropertyContext;
use crate::v5::properties::PropertyView;
use crate::v5::properties::properties_wf;
use crate::v5::properties::spec_encode_properties;
use crate::v5::properties::spec_take_properties;
use crate::v5::property_laws::lemma_properties_decode_encode;
use crate::v5::property_laws::lemma_properties_encode_decode;
use crate::v5::property_laws::properties_are_canonical;
use crate::v5::variable_header::PacketIdentifier;
use crate::wire::read::DecodeError;
use crate::wire::read::MResult;
use crate::wire::read::ProtocolReason;
use crate::wire::read::Reader;
use crate::wire::read::spec_take_u16_be;
use crate::wire::roundtrip::filters_wf;
use crate::wire::roundtrip::lemma_filters_decode_encode;
use crate::wire::roundtrip::lemma_filters_encode_decode;
use crate::wire::roundtrip::lemma_u16_decode_encode;
use crate::wire::roundtrip::lemma_u16_encode_decode;
use crate::wire::strings::MqttString;
use crate::wire::strings::filter_parts;
use crate::wire::strings::is_mqtt_string;
use crate::wire::strings::spec_encode_filters;
use crate::wire::strings::spec_encode_string;
use crate::wire::strings::spec_parse_filters;
use crate::wire::strings::strings_view;
use crate::wire::write::MqttWriteError;
use crate::wire::write::WResult;
use crate::wire::write::WriteMqttPacket;
use crate::wire::write::concat_first;
use crate::wire::write::lemma_concat_step;
use crate::wire::write::spec_encode_u16;
use crate::wire::write::write_outcome;

verus! {

/// An UNSUBSCRIBE, as plain data.
pub struct UnsubscribeView {
    pub packet_identifier: PacketIdentifier,
    pub properties: Seq<PropertyView>,
    pub unsubscriptions: Seq<Seq<char>>,
}

/// The wish of a client to end its subscriptions to some filters.
#[derive(Debug, Clone, PartialEq, Eq)]
pub struct MUnsubscribe {
    pub packet_identifier: PacketIdentifier,
    pub properties: Properties,
    pub unsubscriptions: Vec<MqttString>,
}

impl View for MUnsubscribe {
    type V = UnsubscribeView;

    open spec fn view(&self) -> UnsubscribeView {
        UnsubscribeView {
            packet_identifier: self.packet_identifier,
            properties: self.properties@,
            unsubscriptions: strings_view(self.unsubscriptions@),
        }
    }
}

/// An UNSUBSCRIBE is well-formed when its properties are well-formed for
/// it and it holds at least one filter, each an MQTT string.
pub open spec fn unsubscribe_wf(p: UnsubscribeView) -> bool {
    &&& properties_wf(p.properties, PropertyContext::Unsubscribe)
    &&& p.unsubscriptions.len() > 0
    &&& filters_wf(p.unsubscriptions)
}

/// The body of an UNSUBSCRIBE: the packet identifier, the properties, and
/// the filters.
pub open spec fn spec_encode_unsubscribe(p: UnsubscribeView) -> Seq<u8> {
    spec_encode_u16(p.packet_identifier.0) + spec_encode_properties(p.properties)
        + spec_encode_filters(p.unsubscriptions)
}

/// What the body of an UNSUBSCRIBE decodes to. At least one filter must
/// follow the properties.
#[verifier::opaque]
pub open spec fn spec_parse_unsubscribe(body: Seq<u8>) -> Result<UnsubscribeView, DecodeError> {
    match spec_take_u16_be(body) {
        Err(e) => Err(e),
        Ok((id, r1)) => match spec_take_properties(r1, PropertyContext::Unsubscribe) {
            Err(e) => Err(e),
            Ok((properties, r2)) => match spec_parse_filters(r2) {
                Err(e) => Err(e),
                Ok(xs) => if xs.len() == 0 {
                    Err(DecodeError::ProtocolError(ProtocolReason::EmptyPayload))
                } else {
                    Ok(
                        UnsubscribeView {
                            packet_identifier: PacketIdentifier(id),
                            properties,
                            unsubscriptions: xs,
                        },
                    )
                },
            },
        },
    }
}

/// Whether the body of an UNSUBSCRIBE has its properties in shortest
/// form.
pub open spec fn unsubscribe_is_canonical(body: Seq<u8>) -> bool {
    body.len() >= 2 ==> properties_are_canonical(body.skip(2))
}

fn parse_filters(input: &mut Reader<'_>) -> (r: MResult<Vec<MqttString>>)
    ensures
        match spec_parse_filters(old(input)@) {
            Ok(xs) => r is Ok && strings_view(r->Ok_0@) == xs && final(input)@.len() == 0,
            Err(e) => r == Err::<Vec<MqttString>, DecodeError>(e),
        },
{
    let ghost start = input@;
    let mut filters: Vec<MqttString> = Vec::new();
    while !input.is_empty()
        invariant
            start == old(input)@,
            spec_parse_filters(start) == (match spec_parse_filters(input@) {
                Ok(xs) => Ok::<Seq<Seq<char>>, DecodeError>(strings_view(filters@) + xs),
                Err(e) => Err(e),
            }),
        decreases input@.len(),
    {
        let ghost shown = strings_view(filters@);
        let filter = MqttString::parse(input)?;
        proof {
            match spec_parse_filters(input@) {
                Ok(xs) => {
                    assert(shown + (seq![filter@] + xs) =~= shown.push(filter@) + xs);
                },
                Err(e) => {},
            }
        }
        filters.push(filter);
        proof {
            assert(strings_view(filters@) =~= shown.push(filters@.last()@));
        }
    }
    proof {
        assert(strings_view(filters@) + Seq::<Seq<char>>::empty() =~= strings_view(filters@));
    }
    Ok(filters)
}

fn write_filters<W: WriteMqttPacket>(list: &Vec<MqttString>, buffer: &mut W) -> (r: WResult<W>)
    ensures
        write_outcome(
            old(buffer).state(),
            final(buffer).state(),
            spec_encode_filters(strings_view(list@)),
            r is Ok,
        ),
{
    let ghost parts = filter_parts(strings_view(list@));
    let mut i: usize = 0;
    proof {
        assert(parts.take(0) =~= Seq::<Seq<u8>>::empty());
        assert(buffer.state().written + concat_first(parts, 0) =~= buffer.state().written);
    }
    while i < list.len()
        invariant
            i <= list@.len(),
            parts == filter_parts(strings_view(list@)),
            write_outcome(old(buffer).state(), buffer.state(), concat_first(parts, i as int), true),
        decreases list@.len() - i,
    {
        proof {
            lemma_concat_step(parts, i as int);
            assert(parts[i as int] == spec_encode_string(list@[i as int]@));
        }
        list[i].write(buffer)?;
        proof {
            assert(buffer.state().written =~= old(buffer).state().written + concat_first(
                parts,
                i + 1,
            ));
        }
        i = i + 1;
    }
    proof {
        assert(parts.take(parts.len() as int) =~= parts);
    }
    Ok(())
}

impl MUnsubscribe {
    /// Decodes the body of an UNSUBSCRIBE. All of the input is used.
    pub fn parse(input: &mut Reader<'_>) -> (r: MResult<MUnsubscribe>)
        ensures
            match spec_parse_unsubscribe(old(input)@) {
                Ok(v) => r is Ok && r->Ok_0@ == v && final(input)@.len() == 0,
                Err(e) => r == Err::<MUnsubscribe, DecodeError>(e) && final(input)@ == old(input)@,
            },
    {
        proof {
            reveal(spec_parse_unsubscribe);
        }
        let mut cur = *input;
        let id: u16 = cur.take_u16_be()?;
        let properties = Properties::parse(&mut cur, PropertyContext::Unsubscribe)?;
        let unsubscriptions = parse_filters(&mut cur)?;
        if unsubscriptions.len() == 0 {
            return Err(DecodeError::ProtocolError(ProtocolReason::EmptyPayload));
        }
        *input = cur;
        Ok(MUnsubscribe { packet_identifier: PacketIdentifier(id), properties, unsubscriptions })
    }

    /// Whether the packet is well-formed.
    pub fn is_valid(&self) -> (b: bool)
        ensures
            b == unsubscribe_wf(self@),
    {
        let mut i: usize = 0;
        while i < self.unsubscriptions.len()
            invariant
                i <= self.unsubscriptions@.len(),
                forall|k: int| 0 <= k < i ==> is_mqtt_string((#[trigger] self.unsubscriptions@[k])@),
            decreases self.unsubscriptions@.len() - i,
        {
            let _ = self.unsubscriptions[i].as_str();
            i = i + 1;
        }
        proof {
            assert(filters_wf(self@.unsubscriptions)) by {
                assert forall|k: int| 0 <= k < self@.unsubscriptions.len() implies is_mqtt_string(
                    #[trigger] self@.unsubscriptions[k],
                ) by {
                    assert(is_mqtt_string(self.unsubscriptions@[k]@));
                }
            }
        }
        self.unsubscriptions.len() > 0 && self.properties.is_valid(PropertyContext::Unsubscribe)
            && self.properties.entries_size().is_some()
    }

    /// Writes the body. A packet that is not well-formed is refused before
    /// anything is written.
    pub fn write<W: WriteMqttPacket>(&self, buffer: &mut W) -> (r: WResult<W>)
        ensures
            !unsubscribe_wf(self@) ==> r is Err && *final(buffer) == *old(buffer),
            unsubscribe_wf(self@) ==> write_outcome(
                old(buffer).state(),
                final(buffer).state(),
                spec_encode_unsubscribe(self@),
                r is Ok,
            ),
    {
        if !self.is_valid() {
            return Err(W::Error::from(MqttWriteError::Invariant));
        }
        let ghost before = buffer.state().written;
        buffer.write_u16(self.packet_identifier.0)?;
        self.properties.write(buffer)?;
        let r = write_filters(&self.unsubscriptions, buffer);
        proof {
            if r is Ok {
                assert(buffer.state().written =~= before + spec_encode_unsubscribe(self@));
            }
        }
        r
    }
}

/// A well-formed UNSUBSCRIBE, encoded, decodes to itself.
pub proof fn lemma_unsubscribe_decode_encode(p: UnsubscribeView)
    requires
        unsubscribe_wf(p),
    ensures
        spec_parse_unsubscribe(spec_encode_unsubscribe(p)) == Ok::<UnsubscribeView, DecodeError>(p),
{
    reveal(spec_parse_unsubscribe);
    let list = spec_encode_filters(p.unsubscriptions);
    let block = spec_encode_properties(p.properties);
    assert(spec_encode_unsubscribe(p) =~= spec_encode_u16(p.packet_identifier.0) + (block + list));
    lemma_u16_decode_encode(p.packet_identifier.0, block + list);
    lemma_properties_decode_encode(p.properties, PropertyContext::Unsubscribe, list);
    lemma_filters_decode_encode(p.unsubscriptions);
}

/// A decoded UNSUBSCRIBE encodes to the bytes it came from, where its
/// properties were in shortest form, and is well-formed.
pub proof fn lemma_unsubscribe_encode_decode(body: Seq<u8>)
    requires
        spec_parse_unsubscribe(body) is Ok,
        unsubscribe_is_canonical(body),
    ensures
        spec_encode_unsubscribe(spec_parse_unsubscribe(body)->Ok_0) == body,
        unsubscribe_wf(spec_parse_unsubscribe(body)->Ok_0),
{
    reveal(spec_parse_unsubscribe);
    let p = spec_parse_unsubscribe(body)->Ok_0;
    lemma_u16_encode_decode(body);
    let r1 = spec_take_u16_be(body)->Ok_0.1;
    assert(r1 =~= body.skip(2));
    lemma_properties_encode_decode(r1, PropertyContext::Unsubscribe);
    let r2 = spec_take_properties(r1, PropertyContext::Unsubscribe)->Ok_0.1;
    lemma_filters_encode_decode(r2);
    assert(spec_encode_unsubscribe(p) =~= spec_encode_u16(p.packet_identifier.0) + (
    spec_encode_properties(p.properties) + r2));
}

} // verus!
