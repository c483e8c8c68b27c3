//! Length-prefixed UTF-8 strings and binary data.

use vstd::prelude::*;
use vstd::utf8::decode_utf8;
use vstd::utf8::encode_utf8;
use vstd::utf8::valid_utf8;
use crate::wire::read::DecodeError;
use crate::wire::read::MResult;
use crate::wire::read::Reader;
use crate::wire::read::reads_view;
use crate::wire::read::spec_take_binary;
use crate::wire::write::WResult;
use crate::wire::write::WriteMqttPacket;
use crate::wire::write::concat_all;
use crate::wire::write::spec_encode_binary;
use crate::wire::write::write_outcome;

verus! {

/// Code points that Unicode reserves and never assigns to a character.
pub open spec fn is_noncharacter(c: char) -> bool {
    let u = c as u32;
    (0xFDD0 <= u <= 0xFDEF) || u % 0x10000 == 0xFFFE || u % 0x10000 == 0xFFFF
}

/// A character that may stand in an MQTT string: not U+0000 and not a
/// non-character. Surrogates are no characters at all.
pub open spec fn allowed_char(c: char) -> bool {
    c as u32 != 0 && !is_noncharacter(c)
}

pub open spec fn allowed_chars(s: Seq<char>) -> bool {
    forall|i: int| 0 <= i < s.len() ==> allowed_char(#[trigger] s[i])
}

/// The text of an MQTT string: only allowed characters, and at most 65 535
/// bytes of UTF-8.
pub open spec fn is_mqtt_string(s: Seq<char>) -> bool {
    encode_utf8(s).len() <= 65535 && allowed_chars(s)
}

/// A two-byte length, then that many bytes of UTF-8.
pub open spec fn spec_encode_string(s: Seq<char>) -> Seq<u8> {
    spec_encode_binary(encode_utf8(s))
}

/// A two-byte length, then that many bytes, which must be UTF-8 and decode
/// to allowed characters only.
pub open spec fn spec_take_string(s: Seq<u8>) -> Result<(Seq<char>, Seq<u8>), DecodeError> {
    match spec_take_binary(s) {
        Err(e) => Err(e),
        Ok((bytes, rest)) => if valid_utf8(bytes) && allowed_chars(decode_utf8(bytes)) {
            Ok((decode_utf8(bytes), rest))
        } else {
            Err(DecodeError::InvalidUtf8)
        },
    }
}

pub fn is_allowed_char(c: char) -> (b: bool)
    ensures
        b == allowed_char(c),
{
    let u: u32 = c as u32;
    u != 0 && !((0xFDD0 <= u && u <= 0xFDEF) || u % 0x10000 == 0xFFFE || u % 0x10000 == 0xFFFF)
}

/// Whether every character of `s` may stand in an MQTT string.
pub fn all_chars_allowed(s: &str) -> (b: bool)
    ensures
        b == allowed_chars(s@),
{
    for c in it: s.chars()
        invariant
            it.seq() == s@,
            forall|j: int| 0 <= j < it.index() ==> allowed_char(#[trigger] s@[j]),
    {
        if !is_allowed_char(c) {
            return false;
        }
    }
    true
}

/// Why some text or data cannot be sent as an MQTT string or binary field.
#[derive(Clone, Copy, Debug, PartialEq, Eq, Structural)]
pub enum MqttStringError {
    /// More than 65 535 bytes.
    TooLong,
    /// The text holds U+0000 or a non-character.
    ForbiddenCharacter,
}

/// Calls `core::str::from_utf8` and copies the text out. Trusted: the call
/// succeeds exactly on well-formed UTF-8, and the text is what the bytes
/// decode to.
#[verifier::external_body]
fn utf8_to_string(bytes: &[u8]) -> (r: Option<String>)
    ensures
        r is Some <==> valid_utf8(bytes@),
        r is Some ==> r->0@ == decode_utf8(bytes@),
{
    match core::str::from_utf8(bytes) {
        Ok(text) => Some(text.to_owned()),
        Err(_) => None,
    }
}

/// An MQTT string: text of allowed characters whose UTF-8 form has at most
/// 65 535 bytes. Its view is the text.
#[derive(Debug, PartialEq, Eq, Hash)]
pub struct MqttString {
    value: String,
}

impl View for MqttString {
    type V = Seq<char>;

    closed spec fn view(&self) -> Seq<char> {
        self.value@
    }
}

impl MqttString {
    #[verifier::type_invariant]
    spec fn holds_mqtt_string(self) -> bool {
        is_mqtt_string(self.value@)
    }

    /// The empty string.
    pub fn empty() -> (r: MqttString)
        ensures
            r@.len() == 0,
    {
        proof {
            assert(encode_utf8(Seq::<char>::empty()) =~= Seq::<u8>::empty());
        }
        MqttString { value: String::new() }
    }

    /// Takes `s` as an MQTT string, if it is one.
    pub fn new(s: &str) -> (r: Result<MqttString, MqttStringError>)
        ensures
            match r {
                Ok(m) => m@ == s@ && is_mqtt_string(s@),
                Err(MqttStringError::TooLong) => encode_utf8(s@).len() > 65535,
                Err(MqttStringError::ForbiddenCharacter) => encode_utf8(s@).len() <= 65535
                    && !allowed_chars(s@),
            },
    {
        if s.as_bytes().len() > 65535 {
            return Err(MqttStringError::TooLong);
        }
        if !all_chars_allowed(s) {
            return Err(MqttStringError::ForbiddenCharacter);
        }
        Ok(MqttString { value: s.to_owned() })
    }

    pub fn as_str(&self) -> (s: &str)
        ensures
            s@ == self@,
            is_mqtt_string(self@),
    {
        proof {
            use_type_invariant(self);
        }
        self.value.as_str()
    }

    pub fn equals(&self, other: &MqttString) -> (b: bool)
        ensures
            b == (self@ == other@),
    {
        self.value == other.value
    }

    /// Whether this string is the text `s`.
    pub fn equals_str(&self, s: &str) -> (b: bool)
        ensures
            b == (self@ == s@),
    {
        self.value == s.to_owned()
    }

    /// Number of bytes of the encoded string, length prefix included.
    pub fn binary_size(&self) -> (n: u32)
        ensures
            n == spec_encode_string(self@).len(),
            n <= 65537,
    {
        proof {
            use_type_invariant(self);
        }
        2 + self.value.as_str().as_bytes().len() as u32
    }

    pub fn parse(input: &mut Reader<'_>) -> (r: MResult<MqttString>)
        ensures
            reads_view(spec_take_string(old(input)@), old(input)@, r, final(input)@),
    {
        let mut cur = *input;
        let bytes = cur.take_binary()?;
        match utf8_to_string(bytes) {
            None => Err(DecodeError::InvalidUtf8),
            Some(value) => {
                if !all_chars_allowed(value.as_str()) {
                    return Err(DecodeError::InvalidUtf8);
                }
                proof {
                    vstd::utf8::decode_utf8_encode_utf8(bytes@);
                }
                *input = cur;
                Ok(MqttString { value })
            },
        }
    }

    pub fn write<W: WriteMqttPacket>(&self, buffer: &mut W) -> (r: WResult<W>)
        ensures
            write_outcome(
                old(buffer).state(),
                final(buffer).state(),
                spec_encode_string(self@),
                r is Ok,
            ),
    {
        proof {
            use_type_invariant(self);
        }
        buffer.write_binary(self.value.as_str().as_bytes())
    }
}

impl Clone for MqttString {
    fn clone(&self) -> (r: Self)
        ensures
            r@ == self@,
    {
        proof {
            use_type_invariant(self);
        }
        MqttString { value: self.value.clone() }
    }
}

/// Binary data of at most 65 535 bytes. Its view is the bytes.
#[derive(Debug, PartialEq, Eq, Hash)]
pub struct MqttBytes {
    value: Vec<u8>,
}

impl View for MqttBytes {
    type V = Seq<u8>;

    closed spec fn view(&self) -> Seq<u8> {
        self.value@
    }
}

impl MqttBytes {
    #[verifier::type_invariant]
    spec fn holds_mqtt_bytes(self) -> bool {
        self.value@.len() <= 65535
    }

    /// Takes `value` as binary data, if it is short enough.
    pub fn new(value: Vec<u8>) -> (r: Result<MqttBytes, MqttStringError>)
        ensures
            match r {
                Ok(m) => m@ == value@ && value@.len() <= 65535,
                Err(e) => e == MqttStringError::TooLong && value@.len() > 65535,
            },
    {
        if value.len() > 65535 {
            return Err(MqttStringError::TooLong);
        }
        Ok(MqttBytes { value })
    }

    pub fn as_slice(&self) -> (s: &[u8])
        ensures
            s@ == self@,
            self@.len() <= 65535,
    {
        proof {
            use_type_invariant(self);
        }
        self.value.as_slice()
    }

    /// Number of bytes of the encoded data, length prefix included.
    pub fn binary_size(&self) -> (n: u32)
        ensures
            n == spec_encode_binary(self@).len(),
            n <= 65537,
    {
        proof {
            use_type_invariant(self);
        }
        2 + self.value.len() as u32
    }

    pub fn parse(input: &mut Reader<'_>) -> (r: MResult<MqttBytes>)
        ensures
            reads_view(spec_take_binary(old(input)@), old(input)@, r, final(input)@),
    {
        let bytes = input.take_binary()?;
        Ok(MqttBytes { value: vstd::slice::slice_to_vec(bytes) })
    }

    pub fn write<W: WriteMqttPacket>(&self, buffer: &mut W) -> (r: WResult<W>)
        ensures
            write_outcome(
                old(buffer).state(),
                final(buffer).state(),
                spec_encode_binary(self@),
                r is Ok,
            ),
    {
        proof {
            use_type_invariant(self);
        }
        buffer.write_binary(self.value.as_slice())
    }
}

impl Clone for MqttBytes {
    fn clone(&self) -> (r: Self)
        ensures
            r@ == self@,
    {
        proof {
            use_type_invariant(self);
        }
        MqttBytes { value: vstd::slice::slice_to_vec(self.value.as_slice()) }
    }
}

/// Whether a topic holds one of the wildcard characters `+` and `#`.
pub open spec fn has_wildcard(topic: Seq<char>) -> bool {
    exists|i: int| 0 <= i < topic.len() && (#[trigger] topic[i] == '+' || topic[i] == '#')
}

pub fn str_has_wildcard(topic: &str) -> (b: bool)
    ensures
        b == has_wildcard(topic@),
{
    for c in it: topic.chars()
        invariant
            it.seq() == topic@,
            forall|j: int| 0 <= j < it.index() ==> !(#[trigger] topic@[j] == '+' || topic@[j] == '#'),
    {
        if c == '+' || c == '#' {
            return true;
        }
    }
    false
}

/// The texts of a list of strings.
pub open spec fn strings_view(list: Seq<MqttString>) -> Seq<Seq<char>> {
    Seq::new(list.len(), |i: int| list[i]@)
}

/// The protocol name of MQTT 3.1.1 and 5.0.
pub open spec fn mqtt_name() -> Seq<char> {
    seq!['M', 'Q', 'T', 'T']
}

pub open spec fn spec_encode_optional_string(s: Option<Seq<char>>) -> Seq<u8> {
    match s {
        Some(text) => spec_encode_string(text),
        None => Seq::empty(),
    }
}

pub open spec fn spec_encode_optional_binary(b: Option<Seq<u8>>) -> Seq<u8> {
    match b {
        Some(data) => spec_encode_binary(data),
        None => Seq::empty(),
    }
}

pub open spec fn spec_take_optional_string(present: bool, s: Seq<u8>) -> Result<
    (Option<Seq<char>>, Seq<u8>),
    DecodeError,
> {
    if present {
        match spec_take_string(s) {
            Err(e) => Err(e),
            Ok((text, rest)) => Ok((Some(text), rest)),
        }
    } else {
        Ok((None, s))
    }
}

pub open spec fn spec_take_optional_binary(present: bool, s: Seq<u8>) -> Result<
    (Option<Seq<u8>>, Seq<u8>),
    DecodeError,
> {
    if present {
        match spec_take_binary(s) {
            Err(e) => Err(e),
            Ok((data, rest)) => Ok((Some(data), rest)),
        }
    } else {
        Ok((None, s))
    }
}

/// The encodings of the filters, one for each.
pub open spec fn filter_parts(xs: Seq<Seq<char>>) -> Seq<Seq<u8>> {
    Seq::new(xs.len(), |i: int| spec_encode_string(xs[i]))
}

pub open spec fn spec_encode_filters(xs: Seq<Seq<char>>) -> Seq<u8> {
    concat_all(filter_parts(xs))
}

/// Topic filters until the input ends.
pub open spec fn spec_parse_filters(s: Seq<u8>) -> Result<Seq<Seq<char>>, DecodeError>
    decreases s.len(),
{
    if s.len() == 0 {
        Ok(Seq::empty())
    } else {
        match spec_take_string(s) {
            Err(e) => Err(e),
            Ok((x, rest)) => match spec_parse_filters(rest) {
                Err(e) => Err(e),
                Ok(xs) => Ok(seq![x] + xs),
            },
        }
    }
}

} // verus!
