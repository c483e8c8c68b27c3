//! Round-trip laws of the MQTT 3.1.1 packets: decoding what was encoded
//! gives the packet back, and encoding what was decoded gives the bytes
//! back.

use vstd::prelude::*;
use crate::v3::connect_return::MConnectReturnCode;
use crate::v3::connect_return::lemma_return_code_roundtrip;
use crate::v3::packet::ConnectView;
use crate::v3::packet::MConnack;
use crate::v3::packet::PacketView;
use crate::v3::packet::PublishView;
use crate::v3::packet::SubackView;
use crate::v3::packet::SubscribeView;
use crate::v3::packet::UnsubscribeView;
use crate::v3::packet::connect_flags_inconsistent;
use crate::v3::packet::connect_wf;
use crate::v3::packet::publish_wf;
use crate::v3::packet::request_parts;
use crate::v3::packet::spec_connect_flags;
use crate::v3::packet::spec_encode_acks;
use crate::v3::packet::spec_encode_connack;
use crate::v3::packet::spec_encode_connect;
use crate::v3::packet::spec_encode_publish;
use crate::v3::packet::spec_encode_request;
use crate::v3::packet::spec_encode_requests;
use crate::v3::packet::spec_encode_suback;
use crate::v3::packet::spec_encode_subscribe;
use crate::v3::packet::spec_encode_unsubscribe;
use crate::v3::packet::spec_encode_will;
use crate::v3::packet::spec_parse_acks;
use crate::v3::packet::spec_parse_body;
use crate::v3::packet::spec_parse_connack;
use crate::v3::packet::spec_parse_connect;
use crate::v3::packet::spec_parse_connect_payload;
use crate::v3::packet::spec_parse_id;
use crate::v3::packet::spec_parse_packet;
use crate::v3::packet::spec_parse_publish;
use crate::v3::packet::spec_parse_requests;
use crate::v3::packet::spec_parse_suback;
use crate::v3::packet::spec_parse_subscribe;
use crate::v3::packet::spec_parse_unsubscribe;
use crate::v3::packet::spec_publish_flags;
use crate::v3::packet::spec_take_request;
use crate::v3::packet::spec_take_will;
use crate::v3::qos::MQualityOfService;
use crate::v3::qos::lemma_qos_roundtrip;
use crate::v3::subscription_acks::MSubscriptionAck;
use crate::v3::subscription_acks::lemma_subscription_ack_roundtrip;
use crate::v3::subscription_request::SubscriptionRequestView;
use crate::v3::will::LastWillView;
use crate::v3::write::body_wf;
use crate::v3::write::packet_wf;
use crate::v3::write::spec_encode_body;
use crate::v3::write::spec_encode_packet;
use crate::v3::write::spec_header_of;
use crate::wire::fixed_header::PacketType;
use crate::wire::fixed_header::fixed_header_wf;
use crate::wire::fixed_header::lemma_fixed_header_decode_encode;
use crate::wire::fixed_header::lemma_fixed_header_encode_decode;
use crate::wire::fixed_header::spec_encode_fixed_header;
use crate::wire::fixed_header::spec_take_fixed_header;
use crate::wire::read::DecodeError;
use crate::wire::read::spec_take_u16_be;
use crate::wire::roundtrip::lemma_binary_decode_encode;
use crate::wire::roundtrip::lemma_binary_encode_decode;
use crate::wire::roundtrip::lemma_filters_decode_encode;
use crate::wire::roundtrip::lemma_filters_encode_decode;
use crate::wire::roundtrip::lemma_mqtt_name;
use crate::wire::roundtrip::lemma_optional_binary_decode_encode;
use crate::wire::roundtrip::lemma_optional_string_decode_encode;
use crate::wire::roundtrip::lemma_string_decode_encode;
use crate::wire::roundtrip::lemma_string_encode_decode;
use crate::wire::roundtrip::lemma_u16_decode_encode;
use crate::wire::roundtrip::lemma_u16_encode_decode;
use crate::wire::roundtrip::lemma_u8_decode_encode;
use crate::wire::roundtrip::lemma_u8_encode_decode;
use crate::wire::roundtrip::varint_is_shortest;
use crate::wire::strings::is_mqtt_string;
use crate::wire::strings::spec_encode_filters;
use crate::wire::strings::spec_encode_optional_binary;
use crate::wire::strings::spec_encode_optional_string;
use crate::wire::strings::spec_encode_string;
use crate::wire::strings::spec_parse_filters;
use crate::wire::strings::spec_take_optional_string;
use crate::wire::strings::spec_take_string;
use crate::wire::write::bit;
use crate::wire::write::spec_encode_binary;
use crate::wire::write::spec_encode_u16;

verus! {

/// An encoded CONNACK decodes to itself, and a decoded one encodes to the
/// bytes it came from.
pub proof fn lemma_connack_roundtrip(p: MConnack, body: Seq<u8>)
    ensures
        spec_parse_connack(spec_encode_connack(p)) == Ok::<MConnack, DecodeError>(p),
        spec_parse_connack(body) matches Ok(q) ==> spec_encode_connack(q) == body,
{
    reveal(spec_parse_connack);
    lemma_return_code_roundtrip(p.connect_return_code, 0);
    if spec_parse_connack(body) is Ok {
        let q = spec_parse_connack(body)->Ok_0;
        lemma_return_code_roundtrip(MConnectReturnCode::Accepted, body[1]);
        assert(spec_encode_connack(q) =~= body);
    }
}

/// An encoded packet identifier decodes to itself, and a decoded one
/// encodes to the bytes it came from.
pub proof fn lemma_id_roundtrip(id: u16, body: Seq<u8>)
    ensures
        spec_parse_id(spec_encode_u16(id)) == Ok::<u16, DecodeError>(id),
        spec_parse_id(body) matches Ok(q) ==> spec_encode_u16(q) == body,
{
    reveal(spec_parse_id);
    lemma_u16_decode_encode(id, Seq::empty());
    assert(spec_encode_u16(id) + Seq::<u8>::empty() =~= spec_encode_u16(id));
    if spec_parse_id(body) is Ok {
        lemma_u16_encode_decode(body);
        let rest = spec_take_u16_be(body)->Ok_0.1;
        assert(spec_encode_u16(spec_parse_id(body)->Ok_0) + rest =~= spec_encode_u16(
            spec_parse_id(body)->Ok_0,
        ));
    }
}

/// The flag bits of a PUBLISH give its DUP, quality of service and RETAIN
/// back.
pub proof fn lemma_publish_flags(p: PublishView)
    ensures
        ({
            let flags = spec_publish_flags(p);
            &&& flags < 16
            &&& MQualityOfService::spec_from_byte((flags / 2) % 4) == Some(p.qos)
            &&& ((flags / 8) % 2 == 1) == p.dup
            &&& (flags % 2 == 1) == p.retain
        }),
{
}

/// A well-formed PUBLISH, encoded, decodes to itself under its own flags.
pub proof fn lemma_publish_decode_encode(p: PublishView)
    requires
        publish_wf(p),
    ensures
        spec_parse_publish(spec_publish_flags(p), spec_encode_publish(p)) == Ok::<
            PublishView,
            DecodeError,
        >(p),
{
    reveal(spec_parse_publish);
    lemma_publish_flags(p);
    let ident = match p.id {
        Some(id) => spec_encode_u16(id),
        None => Seq::empty(),
    };
    let body = spec_encode_publish(p);
    assert(body =~= spec_encode_string(p.topic_name) + (ident + p.payload));
    lemma_string_decode_encode(p.topic_name, ident + p.payload);
    match p.id {
        Some(id) => {
            lemma_u16_decode_encode(id, p.payload);
        },
        None => {
            assert(ident + p.payload =~= p.payload);
        },
    }
}

/// A decoded PUBLISH is well-formed and encodes to the bytes it came from,
/// and its flags are the flags it was decoded under.
pub proof fn lemma_publish_encode_decode(flags: u8, body: Seq<u8>)
    requires
        flags < 16,
        spec_parse_publish(flags, body) is Ok,
    ensures
        spec_encode_publish(spec_parse_publish(flags, body)->Ok_0) == body,
        publish_wf(spec_parse_publish(flags, body)->Ok_0),
        spec_publish_flags(spec_parse_publish(flags, body)->Ok_0) == flags,
{
    reveal(spec_parse_publish);
    let p = spec_parse_publish(flags, body)->Ok_0;
    lemma_string_encode_decode(body);
    let rest = spec_take_string(body)->Ok_0.1;
    if p.qos != MQualityOfService::AtMostOnce {
        lemma_u16_encode_decode(rest);
    }
    assert(spec_encode_publish(p) =~= body);
}

/// Every request of the list holds an MQTT string.
pub open spec fn requests_wf(xs: Seq<SubscriptionRequestView>) -> bool {
    forall|i: int| 0 <= i < xs.len() ==> is_mqtt_string((#[trigger] xs[i]).topic)
}

/// An encoded request followed by anything decodes to the request and
/// leaves the rest.
pub proof fn lemma_request_decode_encode(x: SubscriptionRequestView, tail: Seq<u8>)
    requires
        is_mqtt_string(x.topic),
    ensures
        spec_take_request(spec_encode_request(x) + tail) == Ok::<
            (SubscriptionRequestView, Seq<u8>),
            DecodeError,
        >((x, tail)),
        spec_encode_request(x).len() > 0,
{
    let q = x.qos.spec_to_byte();
    assert(spec_encode_request(x) + tail =~= spec_encode_string(x.topic) + (seq![q] + tail));
    lemma_string_decode_encode(x.topic, seq![q] + tail);
    lemma_u8_decode_encode(q, tail);
    lemma_qos_roundtrip(x.qos);
}

/// Encoded requests decode to the same requests.
pub proof fn lemma_requests_decode_encode(xs: Seq<SubscriptionRequestView>)
    requires
        requests_wf(xs),
    ensures
        spec_parse_requests(spec_encode_requests(xs)) == Ok::<
            Seq<SubscriptionRequestView>,
            DecodeError,
        >(xs),
    decreases xs.len(),
{
    if xs.len() == 0 {
        assert(xs =~= Seq::<SubscriptionRequestView>::empty());
    } else {
        let rest = xs.skip(1);
        assert(request_parts(xs).skip(1) =~= request_parts(rest));
        assert(spec_encode_requests(xs) == spec_encode_request(xs[0]) + spec_encode_requests(rest));
        lemma_request_decode_encode(xs[0], spec_encode_requests(rest));
        assert(requests_wf(rest)) by {
            assert forall|i: int| 0 <= i < rest.len() implies is_mqtt_string(
                (#[trigger] rest[i]).topic,
            ) by {
                assert(rest[i] == xs[i + 1]);
            }
        }
        lemma_requests_decode_encode(rest);
        assert(seq![xs[0]] + rest =~= xs);
    }
}

/// Decoded requests hold MQTT strings and encode to the bytes they came
/// from.
pub proof fn lemma_requests_encode_decode(s: Seq<u8>)
    requires
        spec_parse_requests(s) is Ok,
    ensures
        spec_encode_requests(spec_parse_requests(s)->Ok_0) == s,
        requests_wf(spec_parse_requests(s)->Ok_0),
    decreases s.len(),
{
    let xs = spec_parse_requests(s)->Ok_0;
    if s.len() == 0 {
        assert(spec_encode_requests(xs) =~= s);
    } else {
        let x = spec_take_request(s)->Ok_0.0;
        let rest = spec_take_request(s)->Ok_0.1;
        let r1 = spec_take_string(s)->Ok_0.1;
        lemma_string_encode_decode(s);
        lemma_u8_encode_decode(r1);
        lemma_requests_encode_decode(rest);
        let tail = spec_parse_requests(rest)->Ok_0;
        assert(xs == seq![x] + tail);
        assert(request_parts(xs).skip(1) =~= request_parts(tail));
        assert(spec_encode_requests(xs) == spec_encode_request(x) + spec_encode_requests(tail));
        assert(spec_encode_request(x) + rest =~= s);
        assert forall|i: int| 0 <= i < xs.len() implies is_mqtt_string((#[trigger] xs[i]).topic) by {
            if i > 0 {
                assert(xs[i] == tail[i - 1]);
            }
        }
    }
}

/// Encoded grants decode to the same grants, and decoded grants encode to
/// the bytes they came from.
pub proof fn lemma_acks_roundtrip(acks: Seq<MSubscriptionAck>, s: Seq<u8>)
    ensures
        spec_parse_acks(spec_encode_acks(acks)) == Ok::<Seq<MSubscriptionAck>, DecodeError>(acks),
        spec_parse_acks(s) matches Ok(q) ==> spec_encode_acks(q) == s,
    decreases acks.len() + s.len(),
{
    if acks.len() == 0 {
        assert(acks =~= Seq::<MSubscriptionAck>::empty());
    } else {
        let e = spec_encode_acks(acks);
        lemma_subscription_ack_roundtrip(acks[0], 0);
        assert(e.skip(1) =~= spec_encode_acks(acks.skip(1)));
        lemma_acks_roundtrip(acks.skip(1), Seq::empty());
        assert(seq![acks[0]] + acks.skip(1) =~= acks);
    }
    if s.len() > 0 && spec_parse_acks(s) is Ok {
        let q = spec_parse_acks(s)->Ok_0;
        lemma_subscription_ack_roundtrip(MSubscriptionAck::Failure, s[0]);
        lemma_acks_roundtrip(Seq::empty(), s.skip(1));
        let tail = spec_parse_acks(s.skip(1))->Ok_0;
        assert(q == seq![q[0]] + tail);
        assert(q[0].spec_to_byte() == s[0]);
        assert forall|i: int| 0 <= i < s.len() implies spec_encode_acks(q)[i] == s[i] by {
            if i > 0 {
                assert(q[i] == tail[i - 1]);
                assert(spec_encode_acks(tail)[i - 1] == s.skip(1)[i - 1]);
            }
        }
        assert(spec_encode_acks(q) =~= s);
    } else if spec_parse_acks(s) is Ok {
        assert(spec_encode_acks(spec_parse_acks(s)->Ok_0) =~= s);
    }
}

/// A well-formed SUBSCRIBE, SUBACK or UNSUBSCRIBE, encoded, decodes to
/// itself.
pub proof fn lemma_lists_decode_encode(p: PacketView)
    requires
        body_wf(p),
        p is Subscribe || p is Suback || p is Unsubscribe,
    ensures
        p matches PacketView::Subscribe(x) ==> spec_parse_subscribe(spec_encode_subscribe(x)) == Ok::<
            SubscribeView,
            DecodeError,
        >(x),
        p matches PacketView::Suback(x) ==> spec_parse_suback(spec_encode_suback(x)) == Ok::<
            SubackView,
            DecodeError,
        >(x),
        p matches PacketView::Unsubscribe(x) ==> spec_parse_unsubscribe(spec_encode_unsubscribe(x))
            == Ok::<UnsubscribeView, DecodeError>(x),
{
    reveal(spec_parse_subscribe);
    reveal(spec_parse_suback);
    reveal(spec_parse_unsubscribe);
    match p {
        PacketView::Subscribe(x) => {
            lemma_u16_decode_encode(x.id, spec_encode_requests(x.subscriptions));
            lemma_requests_decode_encode(x.subscriptions);
        },
        PacketView::Suback(x) => {
            lemma_u16_decode_encode(x.id, spec_encode_acks(x.subscription_acks));
            lemma_acks_roundtrip(x.subscription_acks, Seq::empty());
        },
        PacketView::Unsubscribe(x) => {
            lemma_u16_decode_encode(x.id, spec_encode_filters(x.unsubscriptions));
            lemma_filters_decode_encode(x.unsubscriptions);
        },
        _ => {},
    }
}

/// A decoded SUBSCRIBE, SUBACK or UNSUBSCRIBE is well-formed and encodes
/// to the bytes it came from.
pub proof fn lemma_lists_encode_decode(body: Seq<u8>)
    ensures
        spec_parse_subscribe(body) matches Ok(x) ==> spec_encode_subscribe(x) == body && body_wf(
            PacketView::Subscribe(x),
        ),
        spec_parse_suback(body) matches Ok(x) ==> spec_encode_suback(x) == body,
        spec_parse_unsubscribe(body) matches Ok(x) ==> spec_encode_unsubscribe(x) == body
            && body_wf(PacketView::Unsubscribe(x)),
{
    reveal(spec_parse_subscribe);
    reveal(spec_parse_suback);
    reveal(spec_parse_unsubscribe);
    if spec_take_u16_be(body) is Ok {
        lemma_u16_encode_decode(body);
        let rest = spec_take_u16_be(body)->Ok_0.1;
        if spec_parse_requests(rest) is Ok {
            lemma_requests_encode_decode(rest);
        }
        lemma_acks_roundtrip(Seq::empty(), rest);
        if spec_parse_filters(rest) is Ok {
            lemma_filters_encode_decode(rest);
        }
    }
}

/// The connect flags give back what they were made of.
pub proof fn lemma_connect_flags(p: ConnectView)
    ensures
        ({
            let f = spec_connect_flags(p);
            &&& f % 2 == 0
            &&& ((f / 2) % 2 == 1) == p.clean_session
            &&& ((f / 4) % 2 == 1) == (p.will is Some)
            &&& (p.will matches Some(w) ==> MQualityOfService::spec_from_byte((f / 8) % 4) == Some(
                w.qos,
            ) && ((f / 32) % 2 == 1) == w.retain)
            &&& (p.will is None ==> (f / 8) % 4 == 0 && (f / 32) % 2 == 0)
            &&& ((f / 64) % 2 == 1) == (p.password is Some)
            &&& (f / 128 == 1) == (p.username is Some)
        }),
{
    reveal(spec_connect_flags);
    let u = bit(p.username is Some);
    let w = bit(p.password is Some);
    let c = bit(p.clean_session);
    let low = (match p.will {
        Some(will) => bit(will.retain) * 32 + will.qos.spec_to_byte() * 8 + 4,
        None => 0,
    }) + c * 2;
    assert(0 <= low < 64);
    let f = spec_connect_flags(p);
    assert(f == u * 128 + w * 64 + low);
    assert(f / 64 == u * 2 + w);
    assert(f % 64 == low);
    assert(f / 32 == (u * 2 + w) * 2 + low / 32);
    assert(f / 8 == (u * 2 + w) * 8 + low / 8);
    assert(f / 4 == (u * 2 + w) * 16 + low / 4);
    assert(f / 2 == (u * 2 + w) * 32 + low / 2);
}

/// Connect flags that were accepted are the flags of what was decoded from
/// them.
pub proof fn lemma_connect_flags_back(flags: u8, p: ConnectView)
    requires
        flags % 2 == 0,
        (flags / 8) % 4 != 3,
        !connect_flags_inconsistent(flags),
        p.clean_session == ((flags / 2) % 2 == 1),
        (p.will is Some) == ((flags / 4) % 2 == 1),
        p.will matches Some(w) ==> MQualityOfService::spec_from_byte((flags / 8) % 4) == Some(w.qos)
            && w.retain == ((flags / 32) % 2 == 1),
        (p.password is Some) == ((flags / 64) % 2 == 1),
        (p.username is Some) == (flags / 128 == 1),
    ensures
        spec_connect_flags(p) == flags,
{
    reveal(spec_connect_flags);
    let f = flags as int;
    assert(f == (f / 128) * 128 + ((f / 64) % 2) * 64 + ((f / 32) % 2) * 32 + ((f / 8) % 4) * 8 + ((f
        / 4) % 2) * 4 + ((f / 2) % 2) * 2 + f % 2) by {
        assert(f == (f / 2) * 2 + f % 2);
        assert(f / 2 == (f / 4) * 2 + (f / 2) % 2);
        assert(f / 4 == (f / 8) * 2 + (f / 4) % 2);
        assert(f / 8 == (f / 32) * 4 + (f / 8) % 4);
        assert(f / 32 == (f / 64) * 2 + (f / 32) % 2);
        assert(f / 64 == (f / 128) * 2 + (f / 64) % 2);
    }
}

/// An encoded will followed by anything decodes, under flags that announce
/// it, to the same will and leaves the rest.
#[verifier::rlimit(100)]
#[verifier::spinoff_prover]
pub proof fn lemma_will_decode_encode(will: Option<LastWillView>, flags: u8, tail: Seq<u8>)
    requires
        will matches Some(w) ==> is_mqtt_string(w.topic) && w.payload.len() <= 65535,
        ((flags / 4) % 2 == 1) == (will is Some),
        will matches Some(w) ==> MQualityOfService::spec_from_byte((flags / 8) % 4) == Some(w.qos)
            && ((flags / 32) % 2 == 1) == w.retain,
    ensures
        spec_take_will(flags, spec_encode_will(will) + tail) == Ok::<
            (Option<LastWillView>, Seq<u8>),
            DecodeError,
        >((will, tail)),
{
    match will {
        Some(w) => {
            assert(spec_encode_will(will) + tail =~= spec_encode_string(w.topic) + (
            spec_encode_binary(w.payload) + tail));
            lemma_string_decode_encode(w.topic, spec_encode_binary(w.payload) + tail);
            lemma_binary_decode_encode(w.payload, tail);
        },
        None => {
            assert(spec_encode_will(will) + tail =~= tail);
        },
    }
}

/// What follows the keep-alive of a well-formed CONNECT decodes, under the
/// flags of the packet, to the packet.
#[verifier::rlimit(100)]
#[verifier::spinoff_prover]
pub proof fn lemma_connect_payload_decode_encode(p: ConnectView)
    requires
        connect_wf(p),
    ensures
        spec_parse_connect_payload(
            spec_connect_flags(p),
            p.keep_alive,
            spec_encode_string(p.client_id) + spec_encode_will(p.will)
                + spec_encode_optional_string(p.username) + spec_encode_optional_binary(p.password),
        ) == Ok::<ConnectView, DecodeError>(p),
{
    reveal(spec_parse_connect_payload);
    lemma_connect_flags(p);
    let flags = spec_connect_flags(p);
    let will = spec_encode_will(p.will);
    let user = spec_encode_optional_string(p.username);
    let pass = spec_encode_optional_binary(p.password);
    let t2 = spec_encode_string(p.client_id) + will + user + pass;
    assert(t2 =~= spec_encode_string(p.client_id) + (will + (user + pass)));
    lemma_string_decode_encode(p.client_id, will + (user + pass));
    lemma_will_decode_encode(p.will, flags, user + pass);
    lemma_optional_string_decode_encode(p.username, pass);
    lemma_optional_binary_decode_encode(p.password, Seq::empty());
    assert(pass + Seq::<u8>::empty() =~= pass);
}

/// A well-formed CONNECT, encoded, decodes to itself.
#[verifier::rlimit(100)]
#[verifier::spinoff_prover]
pub proof fn lemma_connect_decode_encode(p: ConnectView)
    requires
        connect_wf(p),
    ensures
        spec_parse_connect(spec_encode_connect(p)) == Ok::<ConnectView, DecodeError>(p),
{
    reveal(spec_parse_connect);
    lemma_connect_flags(p);
    lemma_connect_payload_decode_encode(p);
    let flags = spec_connect_flags(p);
    let t2 = spec_encode_string(p.client_id) + spec_encode_will(p.will)
        + spec_encode_optional_string(p.username) + spec_encode_optional_binary(p.password);
    let t1 = seq![p.protocol_level, flags] + spec_encode_u16(p.keep_alive) + t2;
    let body = spec_encode_connect(p);
    assert(body =~= spec_encode_string(p.protocol_name) + t1);
    lemma_mqtt_name();
    lemma_string_decode_encode(p.protocol_name, t1);
    assert(t1.skip(1).skip(1) =~= spec_encode_u16(p.keep_alive) + t2);
    lemma_u16_decode_encode(p.keep_alive, t2);
}

/// What the payload of a CONNECT decoded to is well-formed but for its
/// protocol name and level, and encodes to the bytes it came from.
#[verifier::rlimit(100)]
#[verifier::spinoff_prover]
pub proof fn lemma_connect_payload_encode_decode(flags: u8, keep_alive: u16, s: Seq<u8>)
    requires
        spec_parse_connect_payload(flags, keep_alive, s) is Ok,
        flags % 2 == 0,
        (flags / 8) % 4 != 3,
        !connect_flags_inconsistent(flags),
    ensures
        ({
            let p = spec_parse_connect_payload(flags, keep_alive, s)->Ok_0;
            &&& spec_encode_string(p.client_id) + spec_encode_will(p.will)
                + spec_encode_optional_string(p.username) + spec_encode_optional_binary(p.password)
                == s
            &&& connect_wf(p)
            &&& spec_connect_flags(p) == flags
            &&& p.keep_alive == keep_alive
        }),
{
    reveal(spec_parse_connect_payload);
    let p = spec_parse_connect_payload(flags, keep_alive, s)->Ok_0;
    lemma_string_encode_decode(s);
    let r5 = spec_take_string(s)->Ok_0.1;
    let r6 = spec_take_will(flags, r5)->Ok_0.1;
    if (flags / 4) % 2 == 1 {
        lemma_string_encode_decode(r5);
        lemma_binary_encode_decode(spec_take_string(r5)->Ok_0.1);
    }
    assert(spec_encode_will(p.will) + r6 =~= r5);
    let r7 = spec_take_optional_string(flags / 128 == 1, r6)->Ok_0.1;
    if flags / 128 == 1 {
        lemma_string_encode_decode(r6);
    }
    assert(spec_encode_optional_string(p.username) + r7 =~= r6);
    if (flags / 64) % 2 == 1 {
        lemma_binary_encode_decode(r7);
    }
    assert(spec_encode_optional_binary(p.password) =~= r7);
    lemma_connect_flags_back(flags, p);
    assert(spec_encode_string(p.client_id) + spec_encode_will(p.will) + spec_encode_optional_string(
        p.username,
    ) + spec_encode_optional_binary(p.password) =~= s);
}

/// A decoded CONNECT is well-formed and encodes to the bytes it came from.
#[verifier::rlimit(100)]
#[verifier::spinoff_prover]
pub proof fn lemma_connect_encode_decode(body: Seq<u8>)
    requires
        spec_parse_connect(body) is Ok,
    ensures
        spec_encode_connect(spec_parse_connect(body)->Ok_0) == body,
        connect_wf(spec_parse_connect(body)->Ok_0),
{
    reveal(spec_parse_connect);
    let p = spec_parse_connect(body)->Ok_0;
    lemma_string_encode_decode(body);
    let r1 = spec_take_string(body)->Ok_0.1;
    let level = r1[0];
    let flags = r1[1];
    let r3 = r1.skip(1).skip(1);
    lemma_u16_encode_decode(r3);
    let r4 = spec_take_u16_be(r3)->Ok_0.1;
    let keep_alive = spec_take_u16_be(r3)->Ok_0.0;
    lemma_connect_payload_encode_decode(flags, keep_alive, r4);
    assert(r1 =~= seq![level, flags] + r3);
    assert(spec_encode_connect(p) =~= spec_encode_string(p.protocol_name) + (seq![level, flags] + (
    spec_encode_u16(keep_alive) + r4)));
}

/// Decoding what was encoded gives the packet back: a well-formed packet,
/// encoded and followed by anything, decodes to the same packet and leaves
/// what followed.
pub proof fn lemma_packet_decode_encode(p: PacketView, tail: Seq<u8>)
    requires
        packet_wf(p),
    ensures
        spec_parse_packet(spec_encode_packet(p) + tail) == Ok::<(PacketView, Seq<u8>), DecodeError>(
            (p, tail),
        ),
{
    let header = spec_header_of(p);
    let body = spec_encode_body(p);
    if p is Publish {
        lemma_publish_flags(p->Publish_0);
    }
    assert(fixed_header_wf(header));
    let s = spec_encode_packet(p) + tail;
    assert(s =~= spec_encode_fixed_header(header) + (body + tail));
    lemma_fixed_header_decode_encode(header, body + tail);
    assert((body + tail).take(body.len() as int) =~= body);
    assert((body + tail).skip(body.len() as int) =~= tail);
    match p {
        PacketView::Connect(x) => {
            lemma_connect_decode_encode(x);
        },
        PacketView::Connack(x) => {
            lemma_connack_roundtrip(x, Seq::empty());
        },
        PacketView::Publish(x) => {
            lemma_publish_decode_encode(x);
        },
        PacketView::Puback { id } => {
            lemma_id_roundtrip(id, Seq::empty());
        },
        PacketView::Pubrec { id } => {
            lemma_id_roundtrip(id, Seq::empty());
        },
        PacketView::Pubrel { id } => {
            lemma_id_roundtrip(id, Seq::empty());
        },
        PacketView::Pubcomp { id } => {
            lemma_id_roundtrip(id, Seq::empty());
        },
        PacketView::Unsuback { id } => {
            lemma_id_roundtrip(id, Seq::empty());
        },
        PacketView::Subscribe(_) | PacketView::Suback(_) | PacketView::Unsubscribe(_) => {
            lemma_lists_decode_encode(p);
        },
        _ => {},
    }
    assert(spec_parse_body(header, body) == Ok::<PacketView, DecodeError>(p));
}

/// Encoding what was decoded gives the bytes back: where input decodes to
/// a packet and its length field is in shortest form, the packet is
/// well-formed and its encoding, followed by what was left over, is the
/// input.
pub proof fn lemma_packet_encode_decode(s: Seq<u8>)
    requires
        spec_parse_packet(s) is Ok,
        varint_is_shortest(s.skip(1)),
    ensures
        spec_encode_packet(spec_parse_packet(s)->Ok_0.0) + spec_parse_packet(s)->Ok_0.1 == s,
        packet_wf(spec_parse_packet(s)->Ok_0.0),
{
    let p = spec_parse_packet(s)->Ok_0.0;
    let rest = spec_parse_packet(s)->Ok_0.1;
    let header = spec_take_fixed_header(s)->Ok_0.0;
    let after = spec_take_fixed_header(s)->Ok_0.1;
    lemma_fixed_header_encode_decode(s);
    let body = after.take(header.remaining_length as int);
    assert(body + rest =~= after);
    match header.packet_type {
        PacketType::Connect => {
            lemma_connect_encode_decode(body);
        },
        PacketType::Connack => {
            lemma_connack_roundtrip(
                MConnack {
                    session_present: false,
                    connect_return_code: MConnectReturnCode::Accepted,
                },
                body,
            );
        },
        PacketType::Publish => {
            lemma_publish_encode_decode(header.flags, body);
        },
        PacketType::Puback | PacketType::Pubrec | PacketType::Pubrel | PacketType::Pubcomp
        | PacketType::Unsuback => {
            lemma_id_roundtrip(0, body);
        },
        PacketType::Subscribe | PacketType::Suback | PacketType::Unsubscribe => {
            lemma_lists_encode_decode(body);
        },
        _ => {
            assert(body =~= Seq::<u8>::empty());
        },
    }
    assert(spec_encode_body(p) == body);
    assert(spec_header_of(p) == header);
    assert(spec_encode_packet(p) + rest =~= spec_encode_fixed_header(header) + (body + rest));
}

/// Two well-formed packets with the same bytes are the same packet.
pub proof fn lemma_encoding_is_injective(p: PacketView, q: PacketView)
    requires
        packet_wf(p),
        packet_wf(q),
        spec_encode_packet(p) == spec_encode_packet(q),
    ensures
        p == q,
{
    lemma_packet_decode_encode(p, Seq::empty());
    lemma_packet_decode_encode(q, Seq::empty());
}

} // verus!
