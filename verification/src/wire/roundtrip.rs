//! Round-trip laws of the primitive encodings: decoding what was encoded
//! gives the value back, and encoding what was decoded gives the bytes back.

use vstd::prelude::*;
use vstd::utf8::encode_utf8;
use crate::wire::read::DecodeError;
use crate::wire::read::VARINT_MAX;
use crate::wire::read::spec_take_binary;
use crate::wire::read::spec_take_u16_be;
use crate::wire::read::spec_take_u32_be;
use crate::wire::read::spec_take_u8;
use crate::wire::read::spec_take_varint;
use crate::wire::strings::filter_parts;
use crate::wire::strings::is_mqtt_string;
use crate::wire::strings::mqtt_name;
use crate::wire::strings::spec_encode_filters;
use crate::wire::strings::spec_encode_optional_binary;
use crate::wire::strings::spec_encode_optional_string;
use crate::wire::strings::spec_encode_string;
use crate::wire::strings::spec_parse_filters;
use crate::wire::strings::spec_take_optional_binary;
use crate::wire::strings::spec_take_optional_string;
use crate::wire::strings::spec_take_string;
use crate::wire::write::spec_encode_binary;
use crate::wire::write::spec_encode_u16;
use crate::wire::write::spec_encode_u32;
use crate::wire::write::spec_encode_varint;
use crate::wire::write::spec_varint_len;

verus! {

/// A byte followed by anything decodes to that byte and leaves the rest.
pub proof fn lemma_u8_decode_encode(v: u8, tail: Seq<u8>)
    ensures
        spec_take_u8(seq![v] + tail) == Ok::<(u8, Seq<u8>), DecodeError>((v, tail)),
{
    assert((seq![v] + tail).skip(1) =~= tail);
}

/// The byte that was decoded, followed by the rest, is the input.
pub proof fn lemma_u8_encode_decode(s: Seq<u8>)
    requires
        spec_take_u8(s) is Ok,
    ensures
        seq![spec_take_u8(s)->Ok_0.0] + spec_take_u8(s)->Ok_0.1 == s,
{
    assert(seq![s[0]] + s.skip(1) =~= s);
}

/// Two big-endian bytes followed by anything decode to the value that was
/// encoded and leave the rest.
pub proof fn lemma_u16_decode_encode(v: u16, tail: Seq<u8>)
    ensures
        spec_take_u16_be(spec_encode_u16(v) + tail) == Ok::<(u16, Seq<u8>), DecodeError>(
            (v, tail),
        ),
{
    assert((spec_encode_u16(v) + tail).skip(2) =~= tail);
}

/// Encoding a decoded two-byte integer gives the two bytes back.
pub proof fn lemma_u16_encode_decode(s: Seq<u8>)
    requires
        spec_take_u16_be(s) is Ok,
    ensures
        spec_encode_u16(spec_take_u16_be(s)->Ok_0.0) + spec_take_u16_be(s)->Ok_0.1 == s,
{
    let v = spec_take_u16_be(s)->Ok_0.0;
    assert(spec_encode_u16(v) + s.skip(2) =~= s);
}

/// Four big-endian bytes followed by anything decode to the value that was
/// encoded and leave the rest.
pub proof fn lemma_u32_decode_encode(v: u32, tail: Seq<u8>)
    ensures
        spec_take_u32_be(spec_encode_u32(v) + tail) == Ok::<(u32, Seq<u8>), DecodeError>(
            (v, tail),
        ),
{
    assert((spec_encode_u32(v) + tail).skip(4) =~= tail);
}

/// Encoding a decoded four-byte integer gives the four bytes back.
pub proof fn lemma_u32_encode_decode(s: Seq<u8>)
    requires
        spec_take_u32_be(s) is Ok,
    ensures
        spec_encode_u32(spec_take_u32_be(s)->Ok_0.0) + spec_take_u32_be(s)->Ok_0.1 == s,
{
    let v = spec_take_u32_be(s)->Ok_0.0;
    lemma_u32_digits(s[0], s[1], s[2], s[3]);
    let e = spec_encode_u32(v);
    assert(e[0] == s[0] && e[1] == s[1] && e[2] == s[2] && e[3] == s[3]);
    assert(e + s.skip(4) =~= s);
}

/// The four base-256 digits of a big-endian value are the bytes it was made
/// of.
proof fn lemma_u32_digits(b0: u8, b1: u8, b2: u8, b3: u8)
    ensures
        ({
            let v = b0 as int * 16777216 + b1 as int * 65536 + b2 as int * 256 + b3 as int;
            &&& 0 <= v <= u32::MAX
            &&& v / 16777216 == b0
            &&& (v / 65536) % 256 == b1
            &&& (v / 256) % 256 == b2
            &&& v % 256 == b3
        }),
{
    let v = b0 as int * 16777216 + b1 as int * 65536 + b2 as int * 256 + b3 as int;
    let top = b0 as int * 256 + b1 as int;
    let upper = top * 256 + b2 as int;
    assert(v == upper * 256 + b3 as int);
    assert(v / 256 == upper && v % 256 == b3);
    assert(upper / 256 == top && upper % 256 == b2);
    assert(top / 256 == b0 && top % 256 == b1);
    assert(v == top * 65536 + (b2 as int * 256 + b3 as int));
    assert(v / 65536 == top);
    assert(v == b0 as int * 16777216 + (b1 as int * 65536 + b2 as int * 256 + b3 as int));
    assert(v / 16777216 == b0);
}

/// The base-128 digits of a value put together from up to four groups.
proof fn lemma_varint_digits(d0: int, d1: int, d2: int, d3: int)
    requires
        0 <= d0 < 128,
        0 <= d1 < 128,
        0 <= d2 < 128,
        0 <= d3 < 128,
    ensures
        ({
            let v = d0 + 128 * d1 + 16384 * d2 + 2097152 * d3;
            &&& 0 <= v <= VARINT_MAX
            &&& v % 128 == d0
            &&& (v / 128) % 128 == d1
            &&& (v / 16384) % 128 == d2
            &&& v / 2097152 == d3
            &&& (d3 == 0 ==> v / 16384 == d2)
            &&& (d3 == 0 && d2 == 0 ==> v / 128 == d1)
        }),
{
}

/// The shortest encoding of a variable-length integer has one to four
/// bytes, and only the last has its high bit clear.
pub proof fn lemma_varint_shape(v: u32)
    requires
        v <= VARINT_MAX,
    ensures
        spec_encode_varint(v).len() == spec_varint_len(v),
        1 <= spec_varint_len(v) <= 4,
        spec_encode_varint(v).last() < 128,
        forall|i: int| 0 <= i < spec_varint_len(v) - 1 ==> spec_encode_varint(v)[i] >= 128,
{
}

/// A variable-length integer in shortest form, followed by anything,
/// decodes to the value that was encoded and leaves the rest.
pub proof fn lemma_varint_decode_encode(v: u32, tail: Seq<u8>)
    requires
        v <= VARINT_MAX,
    ensures
        spec_take_varint(spec_encode_varint(v) + tail) == Ok::<(u32, Seq<u8>), DecodeError>(
            (v, tail),
        ),
{
    let s = spec_encode_varint(v) + tail;
    assert(s.skip(spec_varint_len(v) as int) =~= tail);
}

/// Whether the variable-length integer at the start of `s` is in shortest
/// form.
pub open spec fn varint_is_shortest(s: Seq<u8>) -> bool {
    spec_take_varint(s) matches Ok((v, rest)) && s.len() - rest.len() == spec_varint_len(v)
}

/// Every decoded variable-length integer is at most `VARINT_MAX`.
pub proof fn lemma_varint_range(s: Seq<u8>)
    requires
        spec_take_varint(s) is Ok,
    ensures
        spec_take_varint(s)->Ok_0.0 <= VARINT_MAX,
        spec_take_varint(s)->Ok_0.1.len() < s.len(),
{
}

/// Encoding a decoded variable-length integer gives the bytes back, where
/// they were in shortest form.
pub proof fn lemma_varint_encode_decode(s: Seq<u8>)
    requires
        varint_is_shortest(s),
    ensures
        spec_encode_varint(spec_take_varint(s)->Ok_0.0) + spec_take_varint(s)->Ok_0.1 == s,
{
    let v = spec_take_varint(s)->Ok_0.0;
    let rest = spec_take_varint(s)->Ok_0.1;
    let e = spec_encode_varint(v);
    if s[0] < 128 {
        lemma_varint_digits(s[0] as int, 0, 0, 0);
    } else if s[1] < 128 {
        lemma_varint_digits(s[0] - 128, s[1] as int, 0, 0);
        assert(e[0] == s[0] && e[1] == s[1]);
    } else if s[2] < 128 {
        lemma_varint_digits(s[0] - 128, s[1] - 128, s[2] as int, 0);
        assert(e[0] == s[0] && e[1] == s[1] && e[2] == s[2]);
    } else {
        lemma_varint_digits(s[0] - 128, s[1] - 128, s[2] - 128, s[3] as int);
        assert(e[0] == s[0] && e[1] == s[1] && e[2] == s[2] && e[3] == s[3]);
    }
    assert(e + rest =~= s);
}

/// Length-prefixed data followed by anything decodes to the data and leaves
/// the rest.
pub proof fn lemma_binary_decode_encode(b: Seq<u8>, tail: Seq<u8>)
    requires
        b.len() <= 65535,
    ensures
        spec_take_binary(spec_encode_binary(b) + tail) == Ok::<(Seq<u8>, Seq<u8>), DecodeError>(
            (b, tail),
        ),
{
    let s = spec_encode_binary(b) + tail;
    assert(s =~= spec_encode_u16(b.len() as u16) + (b + tail));
    lemma_u16_decode_encode(b.len() as u16, b + tail);
    assert((b + tail).take(b.len() as int) =~= b);
    assert((b + tail).skip(b.len() as int) =~= tail);
}

/// Encoding decoded length-prefixed data gives the bytes back.
pub proof fn lemma_binary_encode_decode(s: Seq<u8>)
    requires
        spec_take_binary(s) is Ok,
    ensures
        spec_encode_binary(spec_take_binary(s)->Ok_0.0) + spec_take_binary(s)->Ok_0.1 == s,
        spec_take_binary(s)->Ok_0.0.len() <= 65535,
{
    let b = spec_take_binary(s)->Ok_0.0;
    let rest = spec_take_binary(s)->Ok_0.1;
    lemma_u16_encode_decode(s);
    assert(spec_encode_binary(b) + rest =~= s);
}

/// An encoded MQTT string followed by anything decodes to the same text and
/// leaves the rest.
pub proof fn lemma_string_decode_encode(t: Seq<char>, tail: Seq<u8>)
    requires
        is_mqtt_string(t),
    ensures
        spec_take_string(spec_encode_string(t) + tail) == Ok::<(Seq<char>, Seq<u8>), DecodeError>(
            (t, tail),
        ),
{
    lemma_binary_decode_encode(encode_utf8(t), tail);
    vstd::utf8::encode_utf8_valid_utf8(t);
    vstd::utf8::encode_utf8_decode_utf8(t);
}

/// Encoding a decoded MQTT string gives the bytes back, and what was decoded
/// is an MQTT string.
pub proof fn lemma_string_encode_decode(s: Seq<u8>)
    requires
        spec_take_string(s) is Ok,
    ensures
        spec_encode_string(spec_take_string(s)->Ok_0.0) + spec_take_string(s)->Ok_0.1 == s,
        is_mqtt_string(spec_take_string(s)->Ok_0.0),
{
    let bytes = spec_take_binary(s)->Ok_0.0;
    lemma_binary_encode_decode(s);
    vstd::utf8::decode_utf8_encode_utf8(bytes);
}

/// The protocol name is an MQTT string.
pub proof fn lemma_mqtt_name()
    ensures
        is_mqtt_string(mqtt_name()),
{
    let name = mqtt_name();
    assert(vstd::utf8::is_ascii_chars(name)) by {
        assert forall|i: int| 0 <= i < name.len() implies 0 <= (#[trigger] name[i] as nat) < 128 by {}
    }
    vstd::utf8::is_ascii_chars_encode_utf8(name);
}

/// An optional string followed by anything decodes to itself and leaves
/// the rest.
pub proof fn lemma_optional_string_decode_encode(text: Option<Seq<char>>, tail: Seq<u8>)
    requires
        text matches Some(t) ==> is_mqtt_string(t),
    ensures
        spec_take_optional_string(text is Some, spec_encode_optional_string(text) + tail) == Ok::<
            (Option<Seq<char>>, Seq<u8>),
            DecodeError,
        >((text, tail)),
{
    match text {
        Some(t) => {
            lemma_string_decode_encode(t, tail);
        },
        None => {
            assert(spec_encode_optional_string(text) + tail =~= tail);
        },
    }
}

/// Optional data followed by anything decodes to itself and leaves the
/// rest.
pub proof fn lemma_optional_binary_decode_encode(data: Option<Seq<u8>>, tail: Seq<u8>)
    requires
        data matches Some(d) ==> d.len() <= 65535,
    ensures
        spec_take_optional_binary(data is Some, spec_encode_optional_binary(data) + tail) == Ok::<
            (Option<Seq<u8>>, Seq<u8>),
            DecodeError,
        >((data, tail)),
{
    match data {
        Some(d) => {
            lemma_binary_decode_encode(d, tail);
        },
        None => {
            assert(spec_encode_optional_binary(data) + tail =~= tail);
        },
    }
}

/// Every text of the list is an MQTT string.
pub open spec fn filters_wf(xs: Seq<Seq<char>>) -> bool {
    forall|i: int| 0 <= i < xs.len() ==> is_mqtt_string(#[trigger] xs[i])
}

/// Encoded topic filters decode to the same filters.
pub proof fn lemma_filters_decode_encode(xs: Seq<Seq<char>>)
    requires
        filters_wf(xs),
    ensures
        spec_parse_filters(spec_encode_filters(xs)) == Ok::<Seq<Seq<char>>, DecodeError>(xs),
    decreases xs.len(),
{
    if xs.len() == 0 {
        assert(xs =~= Seq::<Seq<char>>::empty());
    } else {
        let rest = xs.skip(1);
        assert(filter_parts(xs).skip(1) =~= filter_parts(rest));
        assert(spec_encode_filters(xs) == spec_encode_string(xs[0]) + spec_encode_filters(rest));
        lemma_string_decode_encode(xs[0], spec_encode_filters(rest));
        assert(filters_wf(rest)) by {
            assert forall|i: int| 0 <= i < rest.len() implies is_mqtt_string(
                #[trigger] rest[i],
            ) by {
                assert(rest[i] == xs[i + 1]);
            }
        }
        lemma_filters_decode_encode(rest);
        assert(seq![xs[0]] + rest =~= xs);
    }
}

/// Decoded topic filters are MQTT strings and encode to the bytes they
/// came from.
pub proof fn lemma_filters_encode_decode(s: Seq<u8>)
    requires
        spec_parse_filters(s) is Ok,
    ensures
        spec_encode_filters(spec_parse_filters(s)->Ok_0) == s,
        filters_wf(spec_parse_filters(s)->Ok_0),
    decreases s.len(),
{
    let xs = spec_parse_filters(s)->Ok_0;
    if s.len() == 0 {
        assert(spec_encode_filters(xs) =~= s);
    } else {
        let x = spec_take_string(s)->Ok_0.0;
        let rest = spec_take_string(s)->Ok_0.1;
        lemma_string_encode_decode(s);
        lemma_filters_encode_decode(rest);
        let tail = spec_parse_filters(rest)->Ok_0;
        assert(xs == seq![x] + tail);
        assert(filter_parts(xs).skip(1) =~= filter_parts(tail));
        assert(spec_encode_filters(xs) == spec_encode_string(x) + spec_encode_filters(tail));
        assert forall|i: int| 0 <= i < xs.len() implies is_mqtt_string(#[trigger] xs[i]) by {
            if i > 0 {
                assert(xs[i] == tail[i - 1]);
            }
        }
    }
}

} // verus!
