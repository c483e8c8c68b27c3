//! The end that several packets share: a reason code and a block of
//! properties, both of which may be left out. Without the properties there
//! are none; without the reason code it is zero, which stands for success.

use vstd::prelude::*;
use crate::v5::properties::Properties;
use crate::v5::properties::PropertyContext;
use crate::v5::properties::PropertyView;
use crate::v5::properties::entries_allowed;
use crate::v5::properties::properties_wf;
use crate::v5::properties::property_parts;
use crate::v5::properties::property_wf;
use crate::v5::properties::spec_encode_entries;
use crate::v5::properties::spec_encode_properties;
use crate::v5::properties::spec_take_properties;
use crate::v5::properties::value_wf;
use crate::v5::property_laws::lemma_properties_decode_encode;
use crate::v5::property_laws::lemma_properties_encode_decode;
use crate::v5::property_laws::properties_are_canonical;
use crate::wire::read::DecodeError;
use crate::wire::read::MResult;
use crate::wire::read::MalformedReason;
use crate::wire::read::Reader;
use crate::wire::read::VARINT_MAX;
use crate::wire::write::MqttWriteError;
use crate::wire::write::WResult;
use crate::wire::write::WriteMqttPacket;
use crate::wire::write::write_outcome;

verus! {

/// The shortest form of a reason code and properties: nothing at all for
/// the code zero without properties, else the code and the block.
pub open spec fn spec_encode_reason_tail(code: u8, properties: Seq<PropertyView>) -> Seq<u8> {
    if code == 0 && properties.len() == 0 {
        Seq::empty()
    } else {
        seq![code] + spec_encode_properties(properties)
    }
}

/// The reason code and properties that `s` holds. All of `s` is used.
pub open spec fn spec_parse_reason_tail(s: Seq<u8>, context: PropertyContext) -> Result<
    (u8, Seq<PropertyView>),
    DecodeError,
> {
    if s.len() == 0 {
        Ok((0u8, Seq::empty()))
    } else if s.len() == 1 {
        Ok((s[0], Seq::empty()))
    } else {
        match spec_take_properties(s.skip(1), context) {
            Err(e) => Err(e),
            Ok((properties, rest)) => if rest.len() > 0 {
                Err(DecodeError::MalformedPacket(MalformedReason::TrailingBytes))
            } else {
                Ok((s[0], properties))
            },
        }
    }
}

/// Whether `s` holds a reason code and properties in the form that the
/// encoder chooses: nothing where nothing is needed, else both, with every
/// variable-length integer in shortest form.
pub open spec fn reason_tail_is_canonical(s: Seq<u8>, context: PropertyContext) -> bool {
    s.len() == 0 || (s.len() >= 2 && properties_are_canonical(s.skip(1)) && !(s[0] == 0
        && spec_take_properties(s.skip(1), context) is Ok && spec_take_properties(
        s.skip(1),
        context,
    )->Ok_0.0.len() == 0))
}

pub fn parse_reason_tail(input: &mut Reader<'_>, context: PropertyContext) -> (r: MResult<
    (u8, Properties),
>)
    ensures
        match spec_parse_reason_tail(old(input)@, context) {
            Ok((code, properties)) => r is Ok && r->Ok_0.0 == code && r->Ok_0.1@ == properties
                && final(input)@.len() == 0 && forall|i: int|
                0 <= i < properties.len() ==> property_wf(#[trigger] properties[i]),
            Err(e) => r == Err::<(u8, Properties), DecodeError>(e) && final(input)@ == old(input)@,
        },
{
    let mut cur = *input;
    if cur.is_empty() {
        return Ok((0, Properties::new()));
    }
    let code: u8 = cur.take_u8()?;
    if cur.is_empty() {
        *input = cur;
        return Ok((code, Properties::new()));
    }
    let properties = Properties::parse(&mut cur, context)?;
    if !cur.is_empty() {
        return Err(DecodeError::MalformedPacket(MalformedReason::TrailingBytes));
    }
    *input = cur;
    Ok((code, properties))
}

/// Writes a reason code and properties in their shortest form. A block
/// that cannot be written is refused before anything is written.
pub fn write_reason_tail<W: WriteMqttPacket>(code: u8, properties: &Properties, buffer: &mut W) -> (r:
    WResult<W>)
    ensures
        !(spec_encode_entries(properties@).len() <= VARINT_MAX && forall|i: int|
            0 <= i < properties@.len() ==> value_wf((#[trigger] properties@[i]).value)) ==> r is Err
            && *final(buffer) == *old(buffer),
        (spec_encode_entries(properties@).len() <= VARINT_MAX && forall|i: int|
            0 <= i < properties@.len() ==> value_wf((#[trigger] properties@[i]).value))
            ==> write_outcome(
            old(buffer).state(),
            final(buffer).state(),
            spec_encode_reason_tail(code, properties@),
            r is Ok,
        ),
{
    if code == 0 && properties.is_empty() {
        proof {
            assert(buffer.state().written + Seq::<u8>::empty() =~= buffer.state().written);
            assert(property_parts(properties@) =~= Seq::<Seq<u8>>::empty());
        }
        return Ok(());
    }
    if properties.entries_size().is_none() {
        return Err(W::Error::from(MqttWriteError::Invariant));
    }
    let ghost before = buffer.state().written;
    buffer.write_byte(code)?;
    let r = properties.write(buffer);
    proof {
        if r is Ok {
            assert(buffer.state().written =~= before + spec_encode_reason_tail(code, properties@));
        }
    }
    r
}

/// An encoded reason code with a well-formed block decodes to the same
/// code and properties.
pub proof fn lemma_reason_tail_decode_encode(
    code: u8,
    properties: Seq<PropertyView>,
    context: PropertyContext,
)
    requires
        properties_wf(properties, context),
    ensures
        spec_parse_reason_tail(spec_encode_reason_tail(code, properties), context) == Ok::<
            (u8, Seq<PropertyView>),
            DecodeError,
        >((code, properties)),
{
    let s = spec_encode_reason_tail(code, properties);
    if code == 0 && properties.len() == 0 {
        assert(properties =~= Seq::<PropertyView>::empty());
    } else {
        lemma_properties_decode_encode(properties, context, Seq::empty());
        assert(s.skip(1) =~= spec_encode_properties(properties) + Seq::<u8>::empty());
        assert(s[0] == code);
    }
}

/// A decoded reason code and block encode to the bytes they came from,
/// where those were in the form that the encoder chooses, and the block is
/// well-formed for its context.
pub proof fn lemma_reason_tail_encode_decode(s: Seq<u8>, context: PropertyContext)
    requires
        spec_parse_reason_tail(s, context) is Ok,
    ensures
        properties_are_canonical(s.skip(1)) || s.len() < 2 ==> properties_wf(
            spec_parse_reason_tail(s, context)->Ok_0.1,
            context,
        ),
        reason_tail_is_canonical(s, context) ==> spec_encode_reason_tail(
            spec_parse_reason_tail(s, context)->Ok_0.0,
            spec_parse_reason_tail(s, context)->Ok_0.1,
        ) == s,
{
    let code = spec_parse_reason_tail(s, context)->Ok_0.0;
    let properties = spec_parse_reason_tail(s, context)->Ok_0.1;
    if s.len() < 2 {
        assert(property_parts(properties) =~= Seq::<Seq<u8>>::empty());
        assert(entries_allowed(properties, context));
        if s.len() == 0 {
            assert(spec_encode_reason_tail(code, properties) =~= s);
        }
    } else if properties_are_canonical(s.skip(1)) {
        lemma_properties_encode_decode(s.skip(1), context);
        if reason_tail_is_canonical(s, context) {
            assert(spec_encode_reason_tail(code, properties) =~= seq![s[0]] + s.skip(1));
            assert(seq![s[0]] + s.skip(1) =~= s);
        }
    }
}

} // verus!
