//! Round-trip laws of the properties: decoding what was encoded gives the
//! properties back, and encoding what was decoded gives the bytes back
//! where every variable-length integer was in shortest form.

use vstd::prelude::*;
use crate::v5::properties::PropertyContext;
use crate::v5::properties::PropertyId;
use crate::v5::properties::PropertyValueView;
use crate::v5::properties::PropertyView;
use crate::v5::properties::ValueType;
use crate::v5::properties::lemma_check_entries;
use crate::v5::properties::properties_wf;
use crate::v5::properties::property_parts;
use crate::v5::properties::property_wf;
use crate::v5::properties::spec_encode_entries;
use crate::v5::properties::spec_encode_properties;
use crate::v5::properties::spec_encode_property;
use crate::v5::properties::spec_encode_value;
use crate::v5::properties::spec_parse_entries;
use crate::v5::properties::spec_take_properties;
use crate::v5::properties::spec_take_property;
use crate::v5::properties::spec_take_value;
use crate::v5::properties::spec_type_of;
use crate::v5::properties::value_wf;
use crate::wire::read::DecodeError;
use crate::wire::read::spec_take_varint;
use crate::wire::roundtrip::lemma_binary_decode_encode;
use crate::wire::roundtrip::lemma_binary_encode_decode;
use crate::wire::roundtrip::lemma_string_decode_encode;
use crate::wire::roundtrip::lemma_string_encode_decode;
use crate::wire::roundtrip::lemma_u16_decode_encode;
use crate::wire::roundtrip::lemma_u16_encode_decode;
use crate::wire::roundtrip::lemma_u32_decode_encode;
use crate::wire::roundtrip::lemma_u32_encode_decode;
use crate::wire::roundtrip::lemma_u8_decode_encode;
use crate::wire::roundtrip::lemma_u8_encode_decode;
use crate::wire::roundtrip::lemma_varint_decode_encode;
use crate::wire::roundtrip::lemma_varint_encode_decode;
use crate::wire::roundtrip::lemma_varint_range;
use crate::wire::roundtrip::lemma_varint_shape;
use crate::wire::roundtrip::varint_is_shortest;
use crate::wire::strings::spec_encode_string;
use crate::wire::strings::spec_take_string;
use crate::wire::write::spec_encode_varint;

verus! {

/// An encoded well-formed value followed by anything decodes, as a value
/// of its type, to the same value and leaves the rest.
pub proof fn lemma_value_decode_encode(v: PropertyValueView, tail: Seq<u8>)
    requires
        value_wf(v),
    ensures
        spec_take_value(spec_type_of(v), spec_encode_value(v) + tail) == Ok::<
            (PropertyValueView, Seq<u8>),
            DecodeError,
        >((v, tail)),
        spec_encode_value(v).len() > 0,
{
    match v {
        PropertyValueView::Byte(x) => {
            lemma_u8_decode_encode(x, tail);
        },
        PropertyValueView::TwoByteInteger(x) => {
            lemma_u16_decode_encode(x, tail);
        },
        PropertyValueView::FourByteInteger(x) => {
            lemma_u32_decode_encode(x, tail);
        },
        PropertyValueView::VariableByteInteger(x) => {
            lemma_varint_decode_encode(x, tail);
            lemma_varint_shape(x);
        },
        PropertyValueView::Utf8String(x) => {
            lemma_string_decode_encode(x, tail);
        },
        PropertyValueView::BinaryData(x) => {
            lemma_binary_decode_encode(x, tail);
        },
        PropertyValueView::Utf8StringPair(k, x) => {
            assert(spec_encode_value(v) + tail =~= spec_encode_string(k) + (spec_encode_string(x)
                + tail));
            lemma_string_decode_encode(k, spec_encode_string(x) + tail);
            lemma_string_decode_encode(x, tail);
        },
    }
}

/// A decoded value is well-formed and of the type asked for, and encodes
/// to the bytes it came from, where a variable-length integer was in
/// shortest form.
pub proof fn lemma_value_encode_decode(t: ValueType, s: Seq<u8>)
    requires
        spec_take_value(t, s) is Ok,
        t == ValueType::VariableByteInteger ==> varint_is_shortest(s),
    ensures
        spec_encode_value(spec_take_value(t, s)->Ok_0.0) + spec_take_value(t, s)->Ok_0.1 == s,
        value_wf(spec_take_value(t, s)->Ok_0.0),
        spec_type_of(spec_take_value(t, s)->Ok_0.0) == t,
        spec_take_value(t, s)->Ok_0.1.len() < s.len(),
{
    match t {
        ValueType::Byte => {
            lemma_u8_encode_decode(s);
        },
        ValueType::TwoByteInteger => {
            lemma_u16_encode_decode(s);
        },
        ValueType::FourByteInteger => {
            lemma_u32_encode_decode(s);
        },
        ValueType::VariableByteInteger => {
            lemma_varint_encode_decode(s);
            lemma_varint_range(s);
        },
        ValueType::Utf8String => {
            lemma_string_encode_decode(s);
        },
        ValueType::BinaryData => {
            lemma_binary_encode_decode(s);
        },
        ValueType::Utf8StringPair => {
            lemma_string_encode_decode(s);
            let r1 = spec_take_string(s)->Ok_0.1;
            lemma_string_encode_decode(r1);
            let v = spec_take_value(t, s)->Ok_0.0;
            let rest = spec_take_value(t, s)->Ok_0.1;
            assert(spec_encode_value(v) + rest =~= spec_encode_string(spec_take_string(s)->Ok_0.0)
                + (spec_encode_string(spec_take_string(r1)->Ok_0.0) + rest));
        },
    }
}

/// An encoded well-formed property followed by anything decodes to the
/// same property and leaves the rest.
pub proof fn lemma_property_decode_encode(p: PropertyView, tail: Seq<u8>)
    requires
        property_wf(p),
    ensures
        spec_take_property(spec_encode_property(p) + tail) == Ok::<
            (PropertyView, Seq<u8>),
            DecodeError,
        >((p, tail)),
        spec_encode_property(p).len() > 0,
{
    reveal(spec_take_property);
    p.id.lemma_roundtrip(0);
    let code = p.id.spec_code();
    assert(spec_encode_property(p) + tail =~= spec_encode_varint(code) + (spec_encode_value(
        p.value,
    ) + tail));
    lemma_varint_decode_encode(code, spec_encode_value(p.value) + tail);
    lemma_value_decode_encode(p.value, tail);
}

/// Whether the property at the start of `s` has its identifier, and its
/// value where that is a variable-length integer, in shortest form.
pub open spec fn property_is_canonical(s: Seq<u8>) -> bool {
    &&& varint_is_shortest(s)
    &&& (spec_take_varint(s) matches Ok((code, rest)) ==> (PropertyId::spec_from_code(code) matches Some(
        id,
    ) ==> (id.spec_value_type() == ValueType::VariableByteInteger ==> varint_is_shortest(rest))))
}

/// A decoded property is well-formed and encodes to the bytes it came
/// from, where they were in shortest form.
pub proof fn lemma_property_encode_decode(s: Seq<u8>)
    requires
        spec_take_property(s) is Ok,
        property_is_canonical(s),
    ensures
        spec_encode_property(spec_take_property(s)->Ok_0.0) + spec_take_property(s)->Ok_0.1 == s,
        property_wf(spec_take_property(s)->Ok_0.0),
        spec_take_property(s)->Ok_0.1.len() < s.len(),
{
    reveal(spec_take_property);
    let p = spec_take_property(s)->Ok_0.0;
    let rest = spec_take_property(s)->Ok_0.1;
    let code = spec_take_varint(s)->Ok_0.0;
    let r1 = spec_take_varint(s)->Ok_0.1;
    lemma_varint_encode_decode(s);
    p.id.lemma_roundtrip(code);
    lemma_value_encode_decode(p.id.spec_value_type(), r1);
    assert(spec_encode_property(p) + rest =~= spec_encode_varint(code) + (spec_encode_value(p.value)
        + rest));
}

/// Every property of the list is well-formed.
pub open spec fn all_properties_wf(es: Seq<PropertyView>) -> bool {
    forall|i: int| 0 <= i < es.len() ==> property_wf(#[trigger] es[i])
}

/// Encoded well-formed properties decode to the same properties.
pub proof fn lemma_entries_decode_encode(es: Seq<PropertyView>)
    requires
        all_properties_wf(es),
    ensures
        spec_parse_entries(spec_encode_entries(es)) == Ok::<Seq<PropertyView>, DecodeError>(es),
    decreases es.len(),
{
    if es.len() == 0 {
        assert(es =~= Seq::<PropertyView>::empty());
    } else {
        let rest = es.skip(1);
        assert(property_parts(es).skip(1) =~= property_parts(rest));
        assert(spec_encode_entries(es) == spec_encode_property(es[0]) + spec_encode_entries(rest));
        lemma_property_decode_encode(es[0], spec_encode_entries(rest));
        assert(all_properties_wf(rest)) by {
            assert forall|i: int| 0 <= i < rest.len() implies property_wf(#[trigger] rest[i]) by {
                assert(rest[i] == es[i + 1]);
            }
        }
        lemma_entries_decode_encode(rest);
        assert(seq![es[0]] + rest =~= es);
    }
}

/// Whether every property in `s` is in shortest form.
pub open spec fn entries_are_canonical(s: Seq<u8>) -> bool
    decreases s.len(),
{
    if s.len() == 0 {
        true
    } else {
        match spec_take_property(s) {
            Err(_) => true,
            Ok((_, rest)) => property_is_canonical(s) && (rest.len() < s.len()
                ==> entries_are_canonical(rest)),
        }
    }
}

/// Decoded properties are well-formed and encode to the bytes they came
/// from, where those were in shortest form.
pub proof fn lemma_entries_encode_decode(s: Seq<u8>)
    requires
        spec_parse_entries(s) is Ok,
        entries_are_canonical(s),
    ensures
        spec_encode_entries(spec_parse_entries(s)->Ok_0) == s,
        all_properties_wf(spec_parse_entries(s)->Ok_0),
    decreases s.len(),
{
    let es = spec_parse_entries(s)->Ok_0;
    if s.len() == 0 {
        assert(spec_encode_entries(es) =~= s);
    } else {
        let p = spec_take_property(s)->Ok_0.0;
        let rest = spec_take_property(s)->Ok_0.1;
        lemma_property_encode_decode(s);
        lemma_entries_encode_decode(rest);
        let tail = spec_parse_entries(rest)->Ok_0;
        assert(es == seq![p] + tail);
        assert(property_parts(es).skip(1) =~= property_parts(tail));
        assert(spec_encode_entries(es) == spec_encode_property(p) + spec_encode_entries(tail));
        assert forall|i: int| 0 <= i < es.len() implies property_wf(#[trigger] es[i]) by {
            if i > 0 {
                assert(es[i] == tail[i - 1]);
            }
        }
    }
}

/// An encoded well-formed block followed by anything decodes, in its
/// context, to the same properties and leaves the rest.
pub proof fn lemma_properties_decode_encode(
    es: Seq<PropertyView>,
    context: PropertyContext,
    tail: Seq<u8>,
)
    requires
        properties_wf(es, context),
    ensures
        spec_take_properties(spec_encode_properties(es) + tail, context) == Ok::<
            (Seq<PropertyView>, Seq<u8>),
            DecodeError,
        >((es, tail)),
        spec_encode_properties(es).len() > 0,
{
    let body = spec_encode_entries(es);
    let len = body.len() as u32;
    assert(spec_encode_properties(es) + tail =~= spec_encode_varint(len) + (body + tail));
    lemma_varint_decode_encode(len, body + tail);
    lemma_varint_shape(len);
    assert((body + tail).take(len as int) =~= body);
    assert((body + tail).skip(len as int) =~= tail);
    lemma_entries_decode_encode(es);
    lemma_check_entries(es, context, 0);
}

/// Whether the block at the start of `s` has its length and every
/// property in shortest form.
pub open spec fn properties_are_canonical(s: Seq<u8>) -> bool {
    &&& varint_is_shortest(s)
    &&& (spec_take_varint(s) matches Ok((len, rest)) ==> (rest.len() >= len
        ==> entries_are_canonical(rest.take(len as int))))
}

/// A decoded block is well-formed for its context and encodes to the
/// bytes it came from, where those were in shortest form.
pub proof fn lemma_properties_encode_decode(s: Seq<u8>, context: PropertyContext)
    requires
        spec_take_properties(s, context) is Ok,
        properties_are_canonical(s),
    ensures
        spec_encode_properties(spec_take_properties(s, context)->Ok_0.0) + spec_take_properties(
            s,
            context,
        )->Ok_0.1 == s,
        properties_wf(spec_take_properties(s, context)->Ok_0.0, context),
{
    let es = spec_take_properties(s, context)->Ok_0.0;
    let rest = spec_take_properties(s, context)->Ok_0.1;
    let len = spec_take_varint(s)->Ok_0.0;
    let r1 = spec_take_varint(s)->Ok_0.1;
    lemma_varint_encode_decode(s);
    lemma_varint_range(s);
    let block = r1.take(len as int);
    lemma_entries_encode_decode(block);
    lemma_check_entries(es, context, 0);
    assert(block + rest =~= r1);
    assert(spec_encode_properties(es) + rest =~= spec_encode_varint(len) + (block + rest));
}

} // verus!
