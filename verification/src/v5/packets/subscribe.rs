//! The SUBSCRIBE packet.

use vstd::prelude::*;
use crate::v5::properties::Properties;
use crate::v5::properties::PropertyContext;
use crate::v5::properties::PropertyView;
use crate::v5::properties::properties_wf;
use crate::v5::properties::spec_encode_properties;
use crate::v5::properties::spec_take_properties;
use crate::v5::property_laws::lemma_properties_decode_encode;
use crate::v5::property_laws::lemma_properties_encode_decode;
use crate::v5::property_laws::properties_are_canonical;
use crate::v5::qos::QualityOfService;
use crate::v5::variable_header::PacketIdentifier;
use crate::wire::read::DecodeError;
use crate::wire::read::MResult;
use crate::wire::read::MalformedReason;
use crate::wire::read::ProtocolReason;
use crate::wire::read::Reader;
use crate::wire::read::spec_take_u16_be;
use crate::wire::read::spec_take_u8;
use crate::wire::roundtrip::lemma_string_decode_encode;
use crate::wire::roundtrip::lemma_string_encode_decode;
use crate::wire::roundtrip::lemma_u16_decode_encode;
use crate::wire::roundtrip::lemma_u16_encode_decode;
use crate::wire::roundtrip::lemma_u8_decode_encode;
use crate::wire::roundtrip::lemma_u8_encode_decode;
use crate::wire::strings::MqttString;
use crate::wire::strings::is_mqtt_string;
use crate::wire::strings::spec_encode_string;
use crate::wire::strings::spec_take_string;
use crate::wire::write::MqttWriteError;
use crate::wire::write::WResult;
use crate::wire::write::WriteMqttPacket;
use crate::wire::write::bit;
use crate::wire::write::concat_all;
use crate::wire::write::concat_first;
use crate::wire::write::lemma_concat_step;
use crate::wire::write::spec_encode_u16;
use crate::wire::write::write_outcome;

verus! {

/// Whether the server sends retained messages when the subscription is
/// made.
#[derive(Clone, Copy, Debug, PartialEq, Eq, Hash, Structural)]
pub enum RetainHandling {
    SendRetainedMessagesAlways,
    SendRetainedMessagesOnNewSubscribe,
    DoNotSendRetainedMessages,
}

impl RetainHandling {
    pub open spec fn spec_to_byte(self) -> u8 {
        match self {
            RetainHandling::SendRetainedMessagesAlways => 0,
            RetainHandling::SendRetainedMessagesOnNewSubscribe => 1,
            RetainHandling::DoNotSendRetainedMessages => 2,
        }
    }

    pub open spec fn spec_from_byte(byte: u8) -> Option<RetainHandling> {
        if byte == 0 {
            Some(RetainHandling::SendRetainedMessagesAlways)
        } else if byte == 1 {
            Some(RetainHandling::SendRetainedMessagesOnNewSubscribe)
        } else if byte == 2 {
            Some(RetainHandling::DoNotSendRetainedMessages)
        } else {
            None
        }
    }

    pub fn to_byte(self) -> (byte: u8)
        ensures
            byte == self.spec_to_byte(),
            byte <= 2,
    {
        match self {
            RetainHandling::SendRetainedMessagesAlways => 0,
            RetainHandling::SendRetainedMessagesOnNewSubscribe => 1,
            RetainHandling::DoNotSendRetainedMessages => 2,
        }
    }

    pub fn from_byte(byte: u8) -> (r: Option<RetainHandling>)
        ensures
            r == Self::spec_from_byte(byte),
    {
        if byte == 0 {
            Some(RetainHandling::SendRetainedMessagesAlways)
        } else if byte == 1 {
            Some(RetainHandling::SendRetainedMessagesOnNewSubscribe)
        } else if byte == 2 {
            Some(RetainHandling::DoNotSendRetainedMessages)
        } else {
            None
        }
    }
}

/// How a subscription is to be served.
#[derive(Clone, Copy, Debug, PartialEq, Eq, Hash, Structural)]
pub struct SubscriptionOptions {
    pub quality_of_service: QualityOfService,
    /// The client does not want to hear what it published itself.
    pub no_local: bool,
    /// Messages keep the RETAIN flag they were published with.
    pub retain_as_published: bool,
    pub retain_handling: RetainHandling,
}

impl SubscriptionOptions {
    /// The options byte: the quality of service in the two lowest bits,
    /// then No Local, Retain As Published, and two bits of Retain
    /// Handling. The two highest bits stay zero.
    pub open spec fn spec_to_byte(self) -> u8 {
        (self.quality_of_service.spec_to_byte() + bit(self.no_local) * 4 + bit(
            self.retain_as_published,
        ) * 8 + self.retain_handling.spec_to_byte() * 16) as u8
    }

    /// The options that a byte holds. A byte with a reserved bit set, or
    /// with the value 3 for the quality of service or the retain handling,
    /// holds none.
    pub open spec fn spec_from_byte(byte: u8) -> Option<SubscriptionOptions> {
        if byte >= 64 {
            None
        } else {
            match (
                QualityOfService::spec_from_byte(byte % 4),
                RetainHandling::spec_from_byte((byte / 16) % 4),
            ) {
                (Some(quality_of_service), Some(retain_handling)) => Some(
                    SubscriptionOptions {
                        quality_of_service,
                        no_local: (byte / 4) % 2 == 1,
                        retain_as_published: (byte / 8) % 2 == 1,
                        retain_handling,
                    },
                ),
                _ => None,
            }
        }
    }

    pub fn to_byte(self) -> (byte: u8)
        ensures
            byte == self.spec_to_byte(),
    {
        let no_local: u8 = if self.no_local {
            4
        } else {
            0
        };
        let retain_as_published: u8 = if self.retain_as_published {
            8
        } else {
            0
        };
        self.quality_of_service.to_byte() + no_local + retain_as_published
            + self.retain_handling.to_byte() * 16
    }

    pub fn from_byte(byte: u8) -> (r: Option<SubscriptionOptions>)
        ensures
            r == Self::spec_from_byte(byte),
    {
        if byte >= 64 {
            return None;
        }
        match (QualityOfService::from_byte(byte % 4), RetainHandling::from_byte((byte / 16) % 4)) {
            (Some(quality_of_service), Some(retain_handling)) => Some(
                SubscriptionOptions {
                    quality_of_service,
                    no_local: (byte / 4) % 2 == 1,
                    retain_as_published: (byte / 8) % 2 == 1,
                    retain_handling,
                },
            ),
            _ => None,
        }
    }

    /// Options survive the trip through their byte, and a byte that holds
    /// options is the byte of those options.
    pub proof fn lemma_roundtrip(self, byte: u8)
        ensures
            Self::spec_from_byte(self.spec_to_byte()) == Some(self),
            Self::spec_from_byte(byte) matches Some(o) ==> o.spec_to_byte() == byte,
    {
        let b = self.spec_to_byte();
        let q = self.quality_of_service.spec_to_byte() as int;
        let h = self.retain_handling.spec_to_byte() as int;
        let n = bit(self.no_local);
        let a = bit(self.retain_as_published);
        assert(b == q + n * 4 + a * 8 + h * 16);
        assert(b % 4 == q);
        assert(b / 4 == n + a * 2 + h * 4);
        assert(b / 8 == a + h * 2);
        assert(b / 16 == h);
        let x = byte as int;
        assert(x == (x / 16) * 16 + ((x / 8) % 2) * 8 + ((x / 4) % 2) * 4 + x % 4) by {
            assert(x == (x / 4) * 4 + x % 4);
            assert(x / 4 == (x / 8) * 2 + (x / 4) % 2);
            assert(x / 8 == (x / 16) * 2 + (x / 8) % 2);
        }
    }
}

/// One entry of a SUBSCRIBE, as plain data.
pub struct SubscriptionView {
    pub topic_filter: Seq<char>,
    pub options: SubscriptionOptions,
}

/// One entry of a SUBSCRIBE: a topic filter and how to serve it.
#[derive(Debug, Clone, PartialEq, Eq)]
pub struct Subscription {
    pub topic_filter: MqttString,
    pub options: SubscriptionOptions,
}

impl View for Subscription {
    type V = SubscriptionView;

    open spec fn view(&self) -> SubscriptionView {
        SubscriptionView { topic_filter: self.topic_filter@, options: self.options }
    }
}

/// The views of a list of entries.
pub open spec fn subscriptions_view(list: Seq<Subscription>) -> Seq<SubscriptionView> {
    Seq::new(list.len(), |i: int| list[i]@)
}

pub open spec fn spec_encode_subscription(x: SubscriptionView) -> Seq<u8> {
    spec_encode_string(x.topic_filter) + seq![x.options.spec_to_byte()]
}

/// The encodings of the entries, one for each.
pub open spec fn subscription_parts(xs: Seq<SubscriptionView>) -> Seq<Seq<u8>> {
    Seq::new(xs.len(), |i: int| spec_encode_subscription(xs[i]))
}

pub open spec fn spec_encode_subscriptions(xs: Seq<SubscriptionView>) -> Seq<u8> {
    concat_all(subscription_parts(xs))
}

/// One entry: a topic filter and an options byte.
pub open spec fn spec_take_subscription(s: Seq<u8>) -> Result<
    (SubscriptionView, Seq<u8>),
    DecodeError,
> {
    match spec_take_string(s) {
        Err(e) => Err(e),
        Ok((topic_filter, r1)) => match spec_take_u8(r1) {
            Err(e) => Err(e),
            Ok((b, r2)) => match SubscriptionOptions::spec_from_byte(b) {
                None => Err(DecodeError::MalformedPacket(MalformedReason::ReservedBitsSet)),
                Some(options) => Ok((SubscriptionView { topic_filter, options }, r2)),
            },
        },
    }
}

/// Entries until the input ends.
pub open spec fn spec_parse_subscriptions(s: Seq<u8>) -> Result<Seq<SubscriptionView>, DecodeError>
    decreases s.len(),
{
    if s.len() == 0 {
        Ok(Seq::empty())
    } else {
        match spec_take_subscription(s) {
            Err(e) => Err(e),
            Ok((x, rest)) => match spec_parse_subscriptions(rest) {
                Err(e) => Err(e),
                Ok(xs) => Ok(seq![x] + xs),
            },
        }
    }
}

/// A SUBSCRIBE, as plain data.
pub struct SubscribeView {
    pub packet_identifier: PacketIdentifier,
    pub properties: Seq<PropertyView>,
    pub subscriptions: Seq<SubscriptionView>,
}

/// The wish of a client to receive what is published under some filters.
#[derive(Debug, Clone, PartialEq, Eq)]
pub struct MSubscribe {
    pub packet_identifier: PacketIdentifier,
    pub properties: Properties,
    pub subscriptions: Vec<Subscription>,
}

impl View for MSubscribe {
    type V = SubscribeView;

    open spec fn view(&self) -> SubscribeView {
        SubscribeView {
            packet_identifier: self.packet_identifier,
            properties: self.properties@,
            subscriptions: subscriptions_view(self.subscriptions@),
        }
    }
}

/// Every entry of the list holds an MQTT string.
pub open spec fn subscriptions_wf(xs: Seq<SubscriptionView>) -> bool {
    forall|i: int| 0 <= i < xs.len() ==> is_mqtt_string((#[trigger] xs[i]).topic_filter)
}

/// A SUBSCRIBE is well-formed when its properties are well-formed for it
/// and it holds at least one entry, each with an MQTT string.
pub open spec fn subscribe_wf(p: SubscribeView) -> bool {
    &&& properties_wf(p.properties, PropertyContext::Subscribe)
    &&& p.subscriptions.len() > 0
    &&& subscriptions_wf(p.subscriptions)
}

/// The body of a SUBSCRIBE: the packet identifier, the properties, and the
/// entries.
pub open spec fn spec_encode_subscribe(p: SubscribeView) -> Seq<u8> {
    spec_encode_u16(p.packet_identifier.0) + spec_encode_properties(p.properties)
        + spec_encode_subscriptions(p.subscriptions)
}

/// What the body of a SUBSCRIBE decodes to. At least one entry must
/// follow the properties.
#[verifier::opaque]
pub open spec fn spec_parse_subscribe(body: Seq<u8>) -> Result<SubscribeView, DecodeError> {
    match spec_take_u16_be(body) {
        Err(e) => Err(e),
        Ok((id, r1)) => match spec_take_properties(r1, PropertyContext::Subscribe) {
            Err(e) => Err(e),
            Ok((properties, r2)) => match spec_parse_subscriptions(r2) {
                Err(e) => Err(e),
                Ok(xs) => if xs.len() == 0 {
                    Err(DecodeError::ProtocolError(ProtocolReason::EmptyPayload))
                } else {
                    Ok(
                        SubscribeView {
                            packet_identifier: PacketIdentifier(id),
                            properties,
                            subscriptions: xs,
                        },
                    )
                },
            },
        },
    }
}

/// Whether the body of a SUBSCRIBE has its properties in shortest form.
pub open spec fn subscribe_is_canonical(body: Seq<u8>) -> bool {
    body.len() >= 2 ==> properties_are_canonical(body.skip(2))
}

fn parse_subscriptions(input: &mut Reader<'_>) -> (r: MResult<Vec<Subscription>>)
    ensures
        match spec_parse_subscriptions(old(input)@) {
            Ok(xs) => r is Ok && subscriptions_view(r->Ok_0@) == xs && final(input)@.len() == 0,
            Err(e) => r == Err::<Vec<Subscription>, DecodeError>(e),
        },
{
    let ghost start = input@;
    let mut list: Vec<Subscription> = Vec::new();
    while !input.is_empty()
        invariant
            start == old(input)@,
            spec_parse_subscriptions(start) == (match spec_parse_subscriptions(input@) {
                Ok(xs) => Ok::<Seq<SubscriptionView>, DecodeError>(subscriptions_view(list@) + xs),
                Err(e) => Err(e),
            }),
        decreases input@.len(),
    {
        let ghost shown = subscriptions_view(list@);
        let topic_filter = MqttString::parse(input)?;
        let b: u8 = input.take_u8()?;
        let options = match SubscriptionOptions::from_byte(b) {
            None => {
                return Err(DecodeError::MalformedPacket(MalformedReason::ReservedBitsSet));
            },
            Some(o) => o,
        };
        let entry = Subscription { topic_filter, options };
        proof {
            match spec_parse_subscriptions(input@) {
                Ok(xs) => {
                    assert(shown + (seq![entry@] + xs) =~= shown.push(entry@) + xs);
                },
                Err(e) => {},
            }
        }
        list.push(entry);
        proof {
            assert(subscriptions_view(list@) =~= shown.push(list@.last()@));
        }
    }
    proof {
        assert(subscriptions_view(list@) + Seq::<SubscriptionView>::empty() =~= subscriptions_view(
            list@,
        ));
    }
    Ok(list)
}

fn write_subscriptions<W: WriteMqttPacket>(list: &Vec<Subscription>, buffer: &mut W) -> (r: WResult<
    W,
>)
    ensures
        write_outcome(
            old(buffer).state(),
            final(buffer).state(),
            spec_encode_subscriptions(subscriptions_view(list@)),
            r is Ok,
        ),
{
    let ghost parts = subscription_parts(subscriptions_view(list@));
    let mut i: usize = 0;
    proof {
        assert(parts.take(0) =~= Seq::<Seq<u8>>::empty());
        assert(buffer.state().written + concat_first(parts, 0) =~= buffer.state().written);
    }
    while i < list.len()
        invariant
            i <= list@.len(),
            parts == subscription_parts(subscriptions_view(list@)),
            write_outcome(old(buffer).state(), buffer.state(), concat_first(parts, i as int), true),
        decreases list@.len() - i,
    {
        let ghost here = buffer.state().written;
        proof {
            lemma_concat_step(parts, i as int);
            assert(parts[i as int] == spec_encode_subscription(list@[i as int]@));
        }
        list[i].topic_filter.write(buffer)?;
        buffer.write_byte(list[i].options.to_byte())?;
        proof {
            assert(buffer.state().written =~= here + parts[i as int]);
            assert(buffer.state().written =~= old(buffer).state().written + concat_first(
                parts,
                i + 1,
            ));
        }
        i = i + 1;
    }
    proof {
        assert(parts.take(parts.len() as int) =~= parts);
    }
    Ok(())
}

impl MSubscribe {
    /// Decodes the body of a SUBSCRIBE. All of the input is used.
    pub fn parse(input: &mut Reader<'_>) -> (r: MResult<MSubscribe>)
        ensures
            match spec_parse_subscribe(old(input)@) {
                Ok(v) => r is Ok && r->Ok_0@ == v && final(input)@.len() == 0,
                Err(e) => r == Err::<MSubscribe, DecodeError>(e) && final(input)@ == old(input)@,
            },
    {
        proof {
            reveal(spec_parse_subscribe);
        }
        let mut cur = *input;
        let id: u16 = cur.take_u16_be()?;
        let properties = Properties::parse(&mut cur, PropertyContext::Subscribe)?;
        let subscriptions = parse_subscriptions(&mut cur)?;
        if subscriptions.len() == 0 {
            return Err(DecodeError::ProtocolError(ProtocolReason::EmptyPayload));
        }
        *input = cur;
        Ok(MSubscribe { packet_identifier: PacketIdentifier(id), properties, subscriptions })
    }

    /// Whether the packet is well-formed.
    pub fn is_valid(&self) -> (b: bool)
        ensures
            b == subscribe_wf(self@),
    {
        let mut i: usize = 0;
        while i < self.subscriptions.len()
            invariant
                i <= self.subscriptions@.len(),
                forall|k: int|
                    0 <= k < i ==> is_mqtt_string((#[trigger] self.subscriptions@[k]).topic_filter@),
            decreases self.subscriptions@.len() - i,
        {
            let _ = self.subscriptions[i].topic_filter.as_str();
            i = i + 1;
        }
        proof {
            assert(subscriptions_wf(self@.subscriptions)) by {
                assert forall|k: int| 0 <= k < self@.subscriptions.len() implies is_mqtt_string(
                    (#[trigger] self@.subscriptions[k]).topic_filter,
                ) by {
                    assert(is_mqtt_string(self.subscriptions@[k].topic_filter@));
                }
            }
        }
        self.subscriptions.len() > 0 && self.properties.is_valid(PropertyContext::Subscribe)
            && self.properties.entries_size().is_some()
    }

    /// Writes the body. A packet that is not well-formed is refused before
    /// anything is written.
    pub fn write<W: WriteMqttPacket>(&self, buffer: &mut W) -> (r: WResult<W>)
        ensures
            !subscribe_wf(self@) ==> r is Err && *final(buffer) == *old(buffer),
            subscribe_wf(self@) ==> write_outcome(
                old(buffer).state(),
                final(buffer).state(),
                spec_encode_subscribe(self@),
                r is Ok,
            ),
    {
        if !self.is_valid() {
            return Err(W::Error::from(MqttWriteError::Invariant));
        }
        let ghost before = buffer.state().written;
        buffer.write_u16(self.packet_identifier.0)?;
        self.properties.write(buffer)?;
        let r = write_subscriptions(&self.subscriptions, buffer);
        proof {
            if r is Ok {
                assert(buffer.state().written =~= before + spec_encode_subscribe(self@));
            }
        }
        r
    }
}

/// Encoded entries decode to the same entries.
pub proof fn lemma_subscriptions_decode_encode(xs: Seq<SubscriptionView>)
    requires
        subscriptions_wf(xs),
    ensures
        spec_parse_subscriptions(spec_encode_subscriptions(xs)) == Ok::<
            Seq<SubscriptionView>,
            DecodeError,
        >(xs),
    decreases xs.len(),
{
    if xs.len() == 0 {
        assert(xs =~= Seq::<SubscriptionView>::empty());
    } else {
        let rest = xs.skip(1);
        let tail = spec_encode_subscriptions(rest);
        let b = xs[0].options.spec_to_byte();
        assert(subscription_parts(xs).skip(1) =~= subscription_parts(rest));
        assert(spec_encode_subscriptions(xs) == spec_encode_subscription(xs[0]) + tail);
        assert(spec_encode_subscription(xs[0]) + tail =~= spec_encode_string(xs[0].topic_filter) + (
        seq![b] + tail));
        lemma_string_decode_encode(xs[0].topic_filter, seq![b] + tail);
        lemma_u8_decode_encode(b, tail);
        xs[0].options.lemma_roundtrip(0);
        assert(subscriptions_wf(rest)) by {
            assert forall|i: int| 0 <= i < rest.len() implies is_mqtt_string(
                (#[trigger] rest[i]).topic_filter,
            ) by {
                assert(rest[i] == xs[i + 1]);
            }
        }
        lemma_subscriptions_decode_encode(rest);
        assert(seq![xs[0]] + rest =~= xs);
    }
}

/// Decoded entries hold MQTT strings and encode to the bytes they came
/// from.
pub proof fn lemma_subscriptions_encode_decode(s: Seq<u8>)
    requires
        spec_parse_subscriptions(s) is Ok,
    ensures
        spec_encode_subscriptions(spec_parse_subscriptions(s)->Ok_0) == s,
        subscriptions_wf(spec_parse_subscriptions(s)->Ok_0),
    decreases s.len(),
{
    let xs = spec_parse_subscriptions(s)->Ok_0;
    if s.len() == 0 {
        assert(spec_encode_subscriptions(xs) =~= s);
    } else {
        let x = spec_take_subscription(s)->Ok_0.0;
        let rest = spec_take_subscription(s)->Ok_0.1;
        let r1 = spec_take_string(s)->Ok_0.1;
        lemma_string_encode_decode(s);
        lemma_u8_encode_decode(r1);
        x.options.lemma_roundtrip(r1[0]);
        lemma_subscriptions_encode_decode(rest);
        let tail = spec_parse_subscriptions(rest)->Ok_0;
        assert(xs == seq![x] + tail);
        assert(subscription_parts(xs).skip(1) =~= subscription_parts(tail));
        assert(spec_encode_subscriptions(xs) == spec_encode_subscription(x)
            + spec_encode_subscriptions(tail));
        assert(spec_encode_subscription(x) + rest =~= s);
        assert forall|i: int| 0 <= i < xs.len() implies is_mqtt_string(
            (#[trigger] xs[i]).topic_filter,
        ) by {
            if i > 0 {
                assert(xs[i] == tail[i - 1]);
            }
        }
    }
}

/// A well-formed SUBSCRIBE, encoded, decodes to itself.
pub proof fn lemma_subscribe_decode_encode(p: SubscribeView)
    requires
        subscribe_wf(p),
    ensures
        spec_parse_subscribe(spec_encode_subscribe(p)) == Ok::<SubscribeView, DecodeError>(p),
{
    reveal(spec_parse_subscribe);
    let list = spec_encode_subscriptions(p.subscriptions);
    let block = spec_encode_properties(p.properties);
    assert(spec_encode_subscribe(p) =~= spec_encode_u16(p.packet_identifier.0) + (block + list));
    lemma_u16_decode_encode(p.packet_identifier.0, block + list);
    lemma_properties_decode_encode(p.properties, PropertyContext::Subscribe, list);
    lemma_subscriptions_decode_encode(p.subscriptions);
}

/// A decoded SUBSCRIBE encodes to the bytes it came from, where its
/// properties were in shortest form, and is well-formed.
pub proof fn lemma_subscribe_encode_decode(body: Seq<u8>)
    requires
        spec_parse_subscribe(body) is Ok,
        subscribe_is_canonical(body),
    ensures
        spec_encode_subscribe(spec_parse_subscribe(body)->Ok_0) == body,
        subscribe_wf(spec_parse_subscribe(body)->Ok_0),
{
    reveal(spec_parse_subscribe);
    let p = spec_parse_subscribe(body)->Ok_0;
    lemma_u16_encode_decode(body);
    let r1 = spec_take_u16_be(body)->Ok_0.1;
    assert(r1 =~= body.skip(2));
    lemma_properties_encode_decode(r1, PropertyContext::Subscribe);
    let r2 = spec_take_properties(r1, PropertyContext::Subscribe)->Ok_0.1;
    lemma_subscriptions_encode_decode(r2);
    assert(spec_encode_subscribe(p) =~= spec_encode_u16(p.packet_identifier.0) + (
    spec_encode_properties(p.properties) + r2));
}

} // verus!
