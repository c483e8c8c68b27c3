//! Round-trip laws of the CONNECT packet.

use vstd::prelude::*;
use crate::v5::packets::connect::ConnectView;
use crate::v5::packets::connect::WillView;
use crate::v5::packets::connect::connect_wf;
use crate::v5::packets::connect::spec_connect_flags;
use crate::v5::packets::connect::spec_encode_connect;
use crate::v5::packets::connect::spec_encode_will;
use crate::v5::packets::connect::spec_parse_connect;
use crate::v5::packets::connect::spec_parse_connect_payload;
use crate::v5::packets::connect::spec_take_will;
use crate::v5::packets::connect::will_flags_inconsistent;
use crate::v5::packets::connect::will_wf;
use crate::v5::properties::PropertyContext;
use crate::v5::properties::PropertyView;
use crate::v5::properties::spec_encode_properties;
use crate::v5::properties::spec_take_properties;
use crate::v5::property_laws::lemma_properties_decode_encode;
use crate::v5::property_laws::lemma_properties_encode_decode;
use crate::v5::property_laws::properties_are_canonical;
use crate::v5::qos::QualityOfService;
use crate::wire::read::DecodeError;
use crate::wire::read::spec_take_u16_be;
use crate::wire::roundtrip::lemma_binary_decode_encode;
use crate::wire::roundtrip::lemma_binary_encode_decode;
use crate::wire::roundtrip::lemma_mqtt_name;
use crate::wire::roundtrip::lemma_optional_binary_decode_encode;
use crate::wire::roundtrip::lemma_optional_string_decode_encode;
use crate::wire::roundtrip::lemma_string_decode_encode;
use crate::wire::roundtrip::lemma_string_encode_decode;
use crate::wire::roundtrip::lemma_u16_decode_encode;
use crate::wire::roundtrip::lemma_u16_encode_decode;
use crate::wire::strings::is_mqtt_string;
use crate::wire::strings::mqtt_name;
use crate::wire::strings::spec_encode_optional_binary;
use crate::wire::strings::spec_encode_optional_string;
use crate::wire::strings::spec_encode_string;
use crate::wire::strings::spec_take_optional_string;
use crate::wire::strings::spec_take_string;
use crate::wire::write::bit;
use crate::wire::write::spec_encode_binary;
use crate::wire::write::spec_encode_u16;

verus! {

/// The connect flags give back what they were made of.
pub proof fn lemma_connect_flags(p: ConnectView)
    ensures
        ({
            let f = spec_connect_flags(p);
            &&& f % 2 == 0
            &&& ((f / 2) % 2 == 1) == p.clean_start
            &&& ((f / 4) % 2 == 1) == (p.will is Some)
            &&& (p.will matches Some(w) ==> QualityOfService::spec_from_byte((f / 8) % 4) == Some(
                w.will_qos,
            ) && ((f / 32) % 2 == 1) == w.will_retain)
            &&& (f / 8) % 4 != 3
            &&& !will_flags_inconsistent(f)
            &&& ((f / 64) % 2 == 1) == (p.password is Some)
            &&& (f / 128 == 1) == (p.username is Some)
        }),
{
    reveal(spec_connect_flags);
    let u = bit(p.username is Some);
    let w = bit(p.password is Some);
    let c = bit(p.clean_start);
    let low = (match p.will {
        Some(will) => bit(will.will_retain) * 32 + will.will_qos.spec_to_byte() * 8 + 4,
        None => 0,
    }) + c * 2;
    assert(0 <= low < 64);
    let f = spec_connect_flags(p);
    assert(f == u * 128 + w * 64 + low);
    assert(f / 64 == u * 2 + w);
    assert(f % 64 == low);
    assert(f / 32 == (u * 2 + w) * 2 + low / 32);
    assert(f / 8 == (u * 2 + w) * 8 + low / 8);
    assert(f / 4 == (u * 2 + w) * 16 + low / 4);
    assert(f / 2 == (u * 2 + w) * 32 + low / 2);
}

/// Connect flags that were accepted are the flags of what was decoded from
/// them.
pub proof fn lemma_connect_flags_back(flags: u8, p: ConnectView)
    requires
        flags % 2 == 0,
        (flags / 8) % 4 != 3,
        !will_flags_inconsistent(flags),
        p.clean_start == ((flags / 2) % 2 == 1),
        (p.will is Some) == ((flags / 4) % 2 == 1),
        p.will matches Some(w) ==> QualityOfService::spec_from_byte((flags / 8) % 4) == Some(
            w.will_qos,
        ) && w.will_retain == ((flags / 32) % 2 == 1),
        (p.password is Some) == ((flags / 64) % 2 == 1),
        (p.username is Some) == (flags / 128 == 1),
    ensures
        spec_connect_flags(p) == flags,
{
    reveal(spec_connect_flags);
    let f = flags as int;
    assert(f == (f / 128) * 128 + ((f / 64) % 2) * 64 + ((f / 32) % 2) * 32 + ((f / 8) % 4) * 8 + ((f
        / 4) % 2) * 4 + ((f / 2) % 2) * 2 + f % 2) by {
        assert(f == (f / 2) * 2 + f % 2);
        assert(f / 2 == (f / 4) * 2 + (f / 2) % 2);
        assert(f / 4 == (f / 8) * 2 + (f / 4) % 2);
        assert(f / 8 == (f / 32) * 4 + (f / 8) % 4);
        assert(f / 32 == (f / 64) * 2 + (f / 32) % 2);
        assert(f / 64 == (f / 128) * 2 + (f / 64) % 2);
    }
}

/// An encoded will followed by anything decodes, under flags that announce
/// it, to the same will and leaves the rest.
#[verifier::rlimit(100)]
#[verifier::spinoff_prover]
pub proof fn lemma_will_decode_encode(will: Option<WillView>, flags: u8, tail: Seq<u8>)
    requires
        will_wf(will),
        ((flags / 4) % 2 == 1) == (will is Some),
        will matches Some(w) ==> QualityOfService::spec_from_byte((flags / 8) % 4) == Some(
            w.will_qos,
        ) && ((flags / 32) % 2 == 1) == w.will_retain,
    ensures
        spec_take_will(flags, spec_encode_will(will) + tail) == Ok::<
            (Option<WillView>, Seq<u8>),
            DecodeError,
        >((will, tail)),
{
    match will {
        Some(w) => {
            let t1 = spec_encode_string(w.topic) + (spec_encode_binary(w.payload) + tail);
            assert(spec_encode_will(will) + tail =~= spec_encode_properties(w.properties) + t1);
            lemma_properties_decode_encode(w.properties, PropertyContext::Will, t1);
            lemma_string_decode_encode(w.topic, spec_encode_binary(w.payload) + tail);
            lemma_binary_decode_encode(w.payload, tail);
        },
        None => {
            assert(spec_encode_will(will) + tail =~= tail);
        },
    }
}

/// What follows the properties of a well-formed CONNECT decodes, under
/// the flags of the packet, to the packet.
#[verifier::rlimit(100)]
#[verifier::spinoff_prover]
pub proof fn lemma_connect_payload_decode_encode(p: ConnectView)
    requires
        connect_wf(p),
    ensures
        spec_parse_connect_payload(
            spec_connect_flags(p),
            p.keep_alive,
            p.properties,
            spec_encode_string(p.client_identifier) + spec_encode_will(p.will)
                + spec_encode_optional_string(p.username) + spec_encode_optional_binary(p.password),
        ) == Ok::<ConnectView, DecodeError>(p),
{
    reveal(spec_parse_connect_payload);
    lemma_connect_flags(p);
    let flags = spec_connect_flags(p);
    let will = spec_encode_will(p.will);
    let user = spec_encode_optional_string(p.username);
    let pass = spec_encode_optional_binary(p.password);
    let t2 = spec_encode_string(p.client_identifier) + will + user + pass;
    assert(t2 =~= spec_encode_string(p.client_identifier) + (will + (user + pass)));
    lemma_string_decode_encode(p.client_identifier, will + (user + pass));
    lemma_will_decode_encode(p.will, flags, user + pass);
    lemma_optional_string_decode_encode(p.username, pass);
    lemma_optional_binary_decode_encode(p.password, Seq::empty());
    assert(pass + Seq::<u8>::empty() =~= pass);
}

/// A well-formed CONNECT, encoded, decodes to itself.
#[verifier::rlimit(100)]
#[verifier::spinoff_prover]
pub proof fn lemma_connect_decode_encode(p: ConnectView)
    requires
        connect_wf(p),
    ensures
        spec_parse_connect(spec_encode_connect(p)) == Ok::<ConnectView, DecodeError>(p),
{
    reveal(spec_parse_connect);
    lemma_connect_flags(p);
    lemma_connect_payload_decode_encode(p);
    let flags = spec_connect_flags(p);
    let t3 = spec_encode_string(p.client_identifier) + spec_encode_will(p.will)
        + spec_encode_optional_string(p.username) + spec_encode_optional_binary(p.password);
    let t2 = spec_encode_properties(p.properties) + t3;
    let t1 = seq![5u8, flags] + spec_encode_u16(p.keep_alive) + t2;
    let body = spec_encode_connect(p);
    assert(body =~= spec_encode_string(mqtt_name()) + t1);
    lemma_mqtt_name();
    lemma_string_decode_encode(mqtt_name(), t1);
    assert(t1.skip(1).skip(1) =~= spec_encode_u16(p.keep_alive) + t2);
    lemma_u16_decode_encode(p.keep_alive, t2);
    lemma_properties_decode_encode(p.properties, PropertyContext::Connect, t3);
}

/// Whether the will that the flags announce at the start of `s` has its
/// properties in shortest form.
pub open spec fn will_is_canonical(flags: u8, s: Seq<u8>) -> bool {
    (flags / 4) % 2 == 1 ==> properties_are_canonical(s)
}

/// Whether the body of a CONNECT has its properties, and those of its
/// will, in shortest form.
pub open spec fn connect_is_canonical(body: Seq<u8>) -> bool {
    spec_take_string(body) is Ok ==> {
        let r1 = spec_take_string(body)->Ok_0.1;
        r1.len() >= 4 ==> {
            let r4 = r1.skip(4);
            &&& properties_are_canonical(r4)
            &&& spec_take_properties(r4, PropertyContext::Connect) is Ok ==> {
                let r5 = spec_take_properties(r4, PropertyContext::Connect)->Ok_0.1;
                spec_take_string(r5) is Ok ==> will_is_canonical(r1[1], spec_take_string(r5)->Ok_0.1)
            }
        }
    }
}

/// A decoded will is well-formed and encodes to the bytes it came from,
/// where its properties were in shortest form.
#[verifier::rlimit(100)]
#[verifier::spinoff_prover]
pub proof fn lemma_will_encode_decode(flags: u8, s: Seq<u8>)
    requires
        spec_take_will(flags, s) is Ok,
        will_is_canonical(flags, s),
    ensures
        spec_encode_will(spec_take_will(flags, s)->Ok_0.0) + spec_take_will(flags, s)->Ok_0.1 == s,
        will_wf(spec_take_will(flags, s)->Ok_0.0),
{
    let will = spec_take_will(flags, s)->Ok_0.0;
    let rest = spec_take_will(flags, s)->Ok_0.1;
    if (flags / 4) % 2 == 1 {
        lemma_properties_encode_decode(s, PropertyContext::Will);
        let r0 = spec_take_properties(s, PropertyContext::Will)->Ok_0.1;
        lemma_string_encode_decode(r0);
        let r1 = spec_take_string(r0)->Ok_0.1;
        lemma_binary_encode_decode(r1);
        let w = will->0;
        assert(spec_encode_will(will) + rest =~= spec_encode_properties(w.properties) + (
        spec_encode_string(w.topic) + (spec_encode_binary(w.payload) + rest)));
    } else {
        assert(spec_encode_will(will) + rest =~= s);
    }
}

/// What the payload of a CONNECT decoded to is well-formed but for its
/// properties, and encodes to the bytes it came from.
#[verifier::rlimit(100)]
#[verifier::spinoff_prover]
pub proof fn lemma_connect_payload_encode_decode(
    flags: u8,
    keep_alive: u16,
    properties: Seq<PropertyView>,
    s: Seq<u8>,
)
    requires
        spec_parse_connect_payload(flags, keep_alive, properties, s) is Ok,
        flags % 2 == 0,
        (flags / 8) % 4 != 3,
        !will_flags_inconsistent(flags),
        spec_take_string(s) is Ok ==> will_is_canonical(flags, spec_take_string(s)->Ok_0.1),
    ensures
        ({
            let p = spec_parse_connect_payload(flags, keep_alive, properties, s)->Ok_0;
            &&& spec_encode_string(p.client_identifier) + spec_encode_will(p.will)
                + spec_encode_optional_string(p.username) + spec_encode_optional_binary(p.password)
                == s
            &&& is_mqtt_string(p.client_identifier)
            &&& will_wf(p.will)
            &&& (p.username matches Some(u) ==> is_mqtt_string(u))
            &&& (p.password matches Some(b) ==> b.len() <= 65535)
            &&& spec_connect_flags(p) == flags
            &&& p.keep_alive == keep_alive
            &&& p.properties == properties
        }),
{
    reveal(spec_parse_connect_payload);
    let p = spec_parse_connect_payload(flags, keep_alive, properties, s)->Ok_0;
    lemma_string_encode_decode(s);
    let r5 = spec_take_string(s)->Ok_0.1;
    lemma_will_encode_decode(flags, r5);
    let r6 = spec_take_will(flags, r5)->Ok_0.1;
    let r7 = spec_take_optional_string(flags / 128 == 1, r6)->Ok_0.1;
    if flags / 128 == 1 {
        lemma_string_encode_decode(r6);
    }
    assert(spec_encode_optional_string(p.username) + r7 =~= r6);
    if (flags / 64) % 2 == 1 {
        lemma_binary_encode_decode(r7);
    }
    assert(spec_encode_optional_binary(p.password) =~= r7);
    lemma_connect_flags_back(flags, p);
    assert(spec_encode_string(p.client_identifier) + spec_encode_will(p.will)
        + spec_encode_optional_string(p.username) + spec_encode_optional_binary(p.password) =~= s);
}

/// A decoded CONNECT is well-formed and encodes to the bytes it came from,
/// where its properties were in shortest form.
#[verifier::rlimit(100)]
#[verifier::spinoff_prover]
pub proof fn lemma_connect_encode_decode(body: Seq<u8>)
    requires
        spec_parse_connect(body) is Ok,
        connect_is_canonical(body),
    ensures
        spec_encode_connect(spec_parse_connect(body)->Ok_0) == body,
        connect_wf(spec_parse_connect(body)->Ok_0),
{
    reveal(spec_parse_connect);
    let p = spec_parse_connect(body)->Ok_0;
    lemma_string_encode_decode(body);
    let r1 = spec_take_string(body)->Ok_0.1;
    let flags = r1[1];
    let r3 = r1.skip(1).skip(1);
    lemma_u16_encode_decode(r3);
    let r4 = spec_take_u16_be(r3)->Ok_0.1;
    assert(r4 =~= r1.skip(4));
    let keep_alive = spec_take_u16_be(r3)->Ok_0.0;
    lemma_properties_encode_decode(r4, PropertyContext::Connect);
    let properties = spec_take_properties(r4, PropertyContext::Connect)->Ok_0.0;
    let r5 = spec_take_properties(r4, PropertyContext::Connect)->Ok_0.1;
    lemma_connect_payload_encode_decode(flags, keep_alive, properties, r5);
    assert(r1 =~= seq![5u8, flags] + r3);
    assert(spec_encode_connect(p) =~= spec_encode_string(mqtt_name()) + (seq![5u8, flags] + (
    spec_encode_u16(keep_alive) + (spec_encode_properties(properties) + r5))));
}

} // verus!
