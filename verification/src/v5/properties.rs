//! The properties of MQTT 5.0: typed values under identifiers, held in a
//! block in front of which stands its length. One table says for every
//! identifier of what type its value is, in which packets it may stand,
//! and whether it may repeat.

use vstd::prelude::*;
use crate::v5::packets::connect::Will;
use crate::wire::read::DecodeError;
use crate::wire::read::MResult;
use crate::wire::read::MalformedReason;
use crate::wire::read::ProtocolReason;
use crate::wire::read::Reader;
use crate::wire::read::VARINT_MAX;
use crate::wire::read::bounded;
use crate::wire::read::reads_view;
use crate::wire::read::spec_bounded;
use crate::wire::read::spec_take_binary;
use crate::wire::read::spec_take_u16_be;
use crate::wire::read::spec_take_u32_be;
use crate::wire::read::spec_take_u8;
use crate::wire::read::spec_take_varint;
use crate::wire::strings::MqttBytes;
use crate::wire::strings::MqttString;
use crate::wire::strings::is_mqtt_string;
use crate::wire::strings::spec_encode_string;
use crate::wire::strings::spec_take_string;
use crate::wire::write::CountingWriter;
use crate::wire::write::MqttWriteError;
use crate::wire::write::WResult;
use crate::wire::write::WriteMqttPacket;
use crate::wire::write::concat_all;
use crate::wire::write::concat_first;
use crate::wire::write::lemma_concat_step;
use crate::wire::write::spec_encode_binary;
use crate::wire::write::spec_encode_u16;
use crate::wire::write::spec_encode_u32;
use crate::wire::write::spec_encode_varint;
use crate::wire::write::write_outcome;

verus! {

/// Where a block of properties stands: in a packet of some type, or with
/// the will inside a CONNECT.
#[derive(Clone, Copy, Debug, PartialEq, Eq, Hash, Structural)]
pub enum PropertyContext {
    Connect,
    Will,
    Connack,
    Publish,
    Puback,
    Pubrec,
    Pubrel,
    Pubcomp,
    Subscribe,
    Suback,
    Unsubscribe,
    Unsuback,
    Disconnect,
    Auth,
}

/// The types a property value can have.
#[derive(Clone, Copy, Debug, PartialEq, Eq, Hash, Structural)]
pub enum ValueType {
    Byte,
    TwoByteInteger,
    FourByteInteger,
    VariableByteInteger,
    Utf8String,
    BinaryData,
    Utf8StringPair,
}

/// The identifiers of the properties.
#[derive(Clone, Copy, Debug, PartialEq, Eq, Hash, Structural)]
pub enum PropertyId {
    PayloadFormatIndicator,
    MessageExpiryInterval,
    ContentType,
    ResponseTopic,
    CorrelationData,
    SubscriptionIdentifier,
    SessionExpiryInterval,
    AssignedClientIdentifier,
    ServerKeepAlive,
    AuthenticationMethod,
    AuthenticationData,
    RequestProblemInformation,
    WillDelayInterval,
    RequestResponseInformation,
    ResponseInformation,
    ServerReference,
    ReasonString,
    ReceiveMaximum,
    TopicAliasMaximum,
    TopicAlias,
    MaximumQoS,
    RetainAvailable,
    UserProperty,
    MaximumPacketSize,
    WildcardSubscriptionAvailable,
    SubscriptionIdentifierAvailable,
    SharedSubscriptionAvailable,
}

impl PropertyId {
    /// The identifier on the wire.
    pub open spec fn spec_code(self) -> u32 {
        match self {
            PropertyId::PayloadFormatIndicator => 0x01,
            PropertyId::MessageExpiryInterval => 0x02,
            PropertyId::ContentType => 0x03,
            PropertyId::ResponseTopic => 0x08,
            PropertyId::CorrelationData => 0x09,
            PropertyId::SubscriptionIdentifier => 0x0B,
            PropertyId::SessionExpiryInterval => 0x11,
            PropertyId::AssignedClientIdentifier => 0x12,
            PropertyId::ServerKeepAlive => 0x13,
            PropertyId::AuthenticationMethod => 0x15,
            PropertyId::AuthenticationData => 0x16,
            PropertyId::RequestProblemInformation => 0x17,
            PropertyId::WillDelayInterval => 0x18,
            PropertyId::RequestResponseInformation => 0x19,
            PropertyId::ResponseInformation => 0x1A,
            PropertyId::ServerReference => 0x1C,
            PropertyId::ReasonString => 0x1F,
            PropertyId::ReceiveMaximum => 0x21,
            PropertyId::TopicAliasMaximum => 0x22,
            PropertyId::TopicAlias => 0x23,
            PropertyId::MaximumQoS => 0x24,
            PropertyId::RetainAvailable => 0x25,
            PropertyId::UserProperty => 0x26,
            PropertyId::MaximumPacketSize => 0x27,
            PropertyId::WildcardSubscriptionAvailable => 0x28,
            PropertyId::SubscriptionIdentifierAvailable => 0x29,
            PropertyId::SharedSubscriptionAvailable => 0x2A,
        }
    }

    /// The property with the given identifier, where there is one.
    pub open spec fn spec_from_code(code: u32) -> Option<PropertyId> {
        if code == 0x01 {
            Some(PropertyId::PayloadFormatIndicator)
        }         else if code == 0x02 {
            Some(PropertyId::MessageExpiryInterval)
        }         else if code == 0x03 {
            Some(PropertyId::ContentType)
        }         else if code == 0x08 {
            Some(PropertyId::ResponseTopic)
        }         else if code == 0x09 {
            Some(PropertyId::CorrelationData)
        }         else if code == 0x0B {
            Some(PropertyId::SubscriptionIdentifier)
        }         else if code == 0x11 {
            Some(PropertyId::SessionExpiryInterval)
        }         else if code == 0x12 {
            Some(PropertyId::AssignedClientIdentifier)
        }         else if code == 0x13 {
            Some(PropertyId::ServerKeepAlive)
        }         else if code == 0x15 {
            Some(PropertyId::AuthenticationMethod)
        }         else if code == 0x16 {
            Some(PropertyId::AuthenticationData)
        }         else if code == 0x17 {
            Some(PropertyId::RequestProblemInformation)
        }         else if code == 0x18 {
            Some(PropertyId::WillDelayInterval)
        }         else if code == 0x19 {
            Some(PropertyId::RequestResponseInformation)
        }         else if code == 0x1A {
            Some(PropertyId::ResponseInformation)
        }         else if code == 0x1C {
            Some(PropertyId::ServerReference)
        }         else if code == 0x1F {
            Some(PropertyId::ReasonString)
        }         else if code == 0x21 {
            Some(PropertyId::ReceiveMaximum)
        }         else if code == 0x22 {
            Some(PropertyId::TopicAliasMaximum)
        }         else if code == 0x23 {
            Some(PropertyId::TopicAlias)
        }         else if code == 0x24 {
            Some(PropertyId::MaximumQoS)
        }         else if code == 0x25 {
            Some(PropertyId::RetainAvailable)
        }         else if code == 0x26 {
            Some(PropertyId::UserProperty)
        }         else if code == 0x27 {
            Some(PropertyId::MaximumPacketSize)
        }         else if code == 0x28 {
            Some(PropertyId::WildcardSubscriptionAvailable)
        }         else if code == 0x29 {
            Some(PropertyId::SubscriptionIdentifierAvailable)
        }         else if code == 0x2A {
            Some(PropertyId::SharedSubscriptionAvailable)
        } else {
            None
        }
    }

    /// The type of the value of the property.
    pub open spec fn spec_value_type(self) -> ValueType {
        match self {
            PropertyId::PayloadFormatIndicator | PropertyId::RequestProblemInformation | PropertyId::RequestResponseInformation | PropertyId::MaximumQoS | PropertyId::RetainAvailable | PropertyId::WildcardSubscriptionAvailable | PropertyId::SubscriptionIdentifierAvailable | PropertyId::SharedSubscriptionAvailable => ValueType::Byte,
            PropertyId::ServerKeepAlive | PropertyId::ReceiveMaximum | PropertyId::TopicAliasMaximum | PropertyId::TopicAlias => ValueType::TwoByteInteger,
            PropertyId::MessageExpiryInterval | PropertyId::SessionExpiryInterval | PropertyId::WillDelayInterval | PropertyId::MaximumPacketSize => ValueType::FourByteInteger,
            PropertyId::SubscriptionIdentifier => ValueType::VariableByteInteger,
            PropertyId::ContentType | PropertyId::ResponseTopic | PropertyId::AssignedClientIdentifier | PropertyId::AuthenticationMethod | PropertyId::ResponseInformation | PropertyId::ServerReference | PropertyId::ReasonString => ValueType::Utf8String,
            PropertyId::CorrelationData | PropertyId::AuthenticationData => ValueType::BinaryData,
            PropertyId::UserProperty => ValueType::Utf8StringPair,
        }
    }

    /// Whether the property may stand more than once in a block.
    pub open spec fn spec_repeatable(self) -> bool {
        self == PropertyId::UserProperty || self == PropertyId::SubscriptionIdentifier
    }

    /// Whether the property may stand in a block of the given context.
    pub open spec fn spec_allowed_in(self, context: PropertyContext) -> bool {
        match self {
            PropertyId::PayloadFormatIndicator => context == PropertyContext::Publish || context == PropertyContext::Will,
            PropertyId::MessageExpiryInterval => context == PropertyContext::Publish || context == PropertyContext::Will,
            PropertyId::ContentType => context == PropertyContext::Publish || context == PropertyContext::Will,
            PropertyId::ResponseTopic => context == PropertyContext::Publish || context == PropertyContext::Will,
            PropertyId::CorrelationData => context == PropertyContext::Publish || context == PropertyContext::Will,
            PropertyId::SubscriptionIdentifier => context == PropertyContext::Publish || context == PropertyContext::Subscribe,
            PropertyId::SessionExpiryInterval => context == PropertyContext::Connect || context == PropertyContext::Connack || context == PropertyContext::Disconnect,
            PropertyId::AssignedClientIdentifier => context == PropertyContext::Connack,
            PropertyId::ServerKeepAlive => context == PropertyContext::Connack,
            PropertyId::AuthenticationMethod => context == PropertyContext::Connect || context == PropertyContext::Connack || context == PropertyContext::Auth,
            PropertyId::AuthenticationData => context == PropertyContext::Connect || context == PropertyContext::Connack || context == PropertyContext::Auth,
            PropertyId::RequestProblemInformation => context == PropertyContext::Connect,
            PropertyId::WillDelayInterval => context == PropertyContext::Will,
            PropertyId::RequestResponseInformation => context == PropertyContext::Connect,
            PropertyId::ResponseInformation => context == PropertyContext::Connack,
            PropertyId::ServerReference => context == PropertyContext::Connack || context == PropertyContext::Disconnect,
            PropertyId::ReasonString => context == PropertyContext::Connack || context == PropertyContext::Puback || context == PropertyContext::Pubrec || context == PropertyContext::Pubrel || context == PropertyContext::Pubcomp || context == PropertyContext::Suback || context == PropertyContext::Unsuback || context == PropertyContext::Disconnect || context == PropertyContext::Auth,
            PropertyId::ReceiveMaximum => context == PropertyContext::Connect || context == PropertyContext::Connack,
            PropertyId::TopicAliasMaximum => context == PropertyContext::Connect || context == PropertyContext::Connack,
            PropertyId::TopicAlias => context == PropertyContext::Publish,
            PropertyId::MaximumQoS => context == PropertyContext::Connack,
            PropertyId::RetainAvailable => context == PropertyContext::Connack,
            PropertyId::UserProperty => true,
            PropertyId::MaximumPacketSize => context == PropertyContext::Connect || context == PropertyContext::Connack,
            PropertyId::WildcardSubscriptionAvailable => context == PropertyContext::Connack,
            PropertyId::SubscriptionIdentifierAvailable => context == PropertyContext::Connack,
            PropertyId::SharedSubscriptionAvailable => context == PropertyContext::Connack,
        }
    }

    pub fn code(self) -> (code: u32)
        ensures
            code == self.spec_code(),
            code < 128,
    {
        match self {
            PropertyId::PayloadFormatIndicator => 0x01,
            PropertyId::MessageExpiryInterval => 0x02,
            PropertyId::ContentType => 0x03,
            PropertyId::ResponseTopic => 0x08,
            PropertyId::CorrelationData => 0x09,
            PropertyId::SubscriptionIdentifier => 0x0B,
            PropertyId::SessionExpiryInterval => 0x11,
            PropertyId::AssignedClientIdentifier => 0x12,
            PropertyId::ServerKeepAlive => 0x13,
            PropertyId::AuthenticationMethod => 0x15,
            PropertyId::AuthenticationData => 0x16,
            PropertyId::RequestProblemInformation => 0x17,
            PropertyId::WillDelayInterval => 0x18,
            PropertyId::RequestResponseInformation => 0x19,
            PropertyId::ResponseInformation => 0x1A,
            PropertyId::ServerReference => 0x1C,
            PropertyId::ReasonString => 0x1F,
            PropertyId::ReceiveMaximum => 0x21,
            PropertyId::TopicAliasMaximum => 0x22,
            PropertyId::TopicAlias => 0x23,
            PropertyId::MaximumQoS => 0x24,
            PropertyId::RetainAvailable => 0x25,
            PropertyId::UserProperty => 0x26,
            PropertyId::MaximumPacketSize => 0x27,
            PropertyId::WildcardSubscriptionAvailable => 0x28,
            PropertyId::SubscriptionIdentifierAvailable => 0x29,
            PropertyId::SharedSubscriptionAvailable => 0x2A,
        }
    }

    pub fn from_code(code: u32) -> (r: Option<PropertyId>)
        ensures
            r == Self::spec_from_code(code),
    {
        if code == 0x01 {
            Some(PropertyId::PayloadFormatIndicator)
        }         else if code == 0x02 {
            Some(PropertyId::MessageExpiryInterval)
        }         else if code == 0x03 {
            Some(PropertyId::ContentType)
        }         else if code == 0x08 {
            Some(PropertyId::ResponseTopic)
        }         else if code == 0x09 {
            Some(PropertyId::CorrelationData)
        }         else if code == 0x0B {
            Some(PropertyId::SubscriptionIdentifier)
        }         else if code == 0x11 {
            Some(PropertyId::SessionExpiryInterval)
        }         else if code == 0x12 {
            Some(PropertyId::AssignedClientIdentifier)
        }         else if code == 0x13 {
            Some(PropertyId::ServerKeepAlive)
        }         else if code == 0x15 {
            Some(PropertyId::AuthenticationMethod)
        }         else if code == 0x16 {
            Some(PropertyId::AuthenticationData)
        }         else if code == 0x17 {
            Some(PropertyId::RequestProblemInformation)
        }         else if code == 0x18 {
            Some(PropertyId::WillDelayInterval)
        }         else if code == 0x19 {
            Some(PropertyId::RequestResponseInformation)
        }         else if code == 0x1A {
            Some(PropertyId::ResponseInformation)
        }         else if code == 0x1C {
            Some(PropertyId::ServerReference)
        }         else if code == 0x1F {
            Some(PropertyId::ReasonString)
        }         else if code == 0x21 {
            Some(PropertyId::ReceiveMaximum)
        }         else if code == 0x22 {
            Some(PropertyId::TopicAliasMaximum)
        }         else if code == 0x23 {
            Some(PropertyId::TopicAlias)
        }         else if code == 0x24 {
            Some(PropertyId::MaximumQoS)
        }         else if code == 0x25 {
            Some(PropertyId::RetainAvailable)
        }         else if code == 0x26 {
            Some(PropertyId::UserProperty)
        }         else if code == 0x27 {
            Some(PropertyId::MaximumPacketSize)
        }         else if code == 0x28 {
            Some(PropertyId::WildcardSubscriptionAvailable)
        }         else if code == 0x29 {
            Some(PropertyId::SubscriptionIdentifierAvailable)
        }         else if code == 0x2A {
            Some(PropertyId::SharedSubscriptionAvailable)
        } else {
            None
        }
    }

    pub fn value_type(self) -> (t: ValueType)
        ensures
            t == self.spec_value_type(),
    {
        match self {
            PropertyId::PayloadFormatIndicator | PropertyId::RequestProblemInformation | PropertyId::RequestResponseInformation | PropertyId::MaximumQoS | PropertyId::RetainAvailable | PropertyId::WildcardSubscriptionAvailable | PropertyId::SubscriptionIdentifierAvailable | PropertyId::SharedSubscriptionAvailable => ValueType::Byte,
            PropertyId::ServerKeepAlive | PropertyId::ReceiveMaximum | PropertyId::TopicAliasMaximum | PropertyId::TopicAlias => ValueType::TwoByteInteger,
            PropertyId::MessageExpiryInterval | PropertyId::SessionExpiryInterval | PropertyId::WillDelayInterval | PropertyId::MaximumPacketSize => ValueType::FourByteInteger,
            PropertyId::SubscriptionIdentifier => ValueType::VariableByteInteger,
            PropertyId::ContentType | PropertyId::ResponseTopic | PropertyId::AssignedClientIdentifier | PropertyId::AuthenticationMethod | PropertyId::ResponseInformation | PropertyId::ServerReference | PropertyId::ReasonString => ValueType::Utf8String,
            PropertyId::CorrelationData | PropertyId::AuthenticationData => ValueType::BinaryData,
            PropertyId::UserProperty => ValueType::Utf8StringPair,
        }
    }

    pub fn repeatable(self) -> (b: bool)
        ensures
            b == self.spec_repeatable(),
    {
        matches!(self, PropertyId::UserProperty | PropertyId::SubscriptionIdentifier)
    }

    pub fn allowed_in(self, context: PropertyContext) -> (b: bool)
        ensures
            b == self.spec_allowed_in(context),
    {
        match self {
            PropertyId::PayloadFormatIndicator => matches!(context, PropertyContext::Publish | PropertyContext::Will),
            PropertyId::MessageExpiryInterval => matches!(context, PropertyContext::Publish | PropertyContext::Will),
            PropertyId::ContentType => matches!(context, PropertyContext::Publish | PropertyContext::Will),
            PropertyId::ResponseTopic => matches!(context, PropertyContext::Publish | PropertyContext::Will),
            PropertyId::CorrelationData => matches!(context, PropertyContext::Publish | PropertyContext::Will),
            PropertyId::SubscriptionIdentifier => matches!(context, PropertyContext::Publish | PropertyContext::Subscribe),
            PropertyId::SessionExpiryInterval => matches!(context, PropertyContext::Connect | PropertyContext::Connack | PropertyContext::Disconnect),
            PropertyId::AssignedClientIdentifier => matches!(context, PropertyContext::Connack),
            PropertyId::ServerKeepAlive => matches!(context, PropertyContext::Connack),
            PropertyId::AuthenticationMethod => matches!(context, PropertyContext::Connect | PropertyContext::Connack | PropertyContext::Auth),
            PropertyId::AuthenticationData => matches!(context, PropertyContext::Connect | PropertyContext::Connack | PropertyContext::Auth),
            PropertyId::RequestProblemInformation => matches!(context, PropertyContext::Connect),
            PropertyId::WillDelayInterval => matches!(context, PropertyContext::Will),
            PropertyId::RequestResponseInformation => matches!(context, PropertyContext::Connect),
            PropertyId::ResponseInformation => matches!(context, PropertyContext::Connack),
            PropertyId::ServerReference => matches!(context, PropertyContext::Connack | PropertyContext::Disconnect),
            PropertyId::ReasonString => matches!(context, PropertyContext::Connack | PropertyContext::Puback | PropertyContext::Pubrec | PropertyContext::Pubrel | PropertyContext::Pubcomp | PropertyContext::Suback | PropertyContext::Unsuback | PropertyContext::Disconnect | PropertyContext::Auth),
            PropertyId::ReceiveMaximum => matches!(context, PropertyContext::Connect | PropertyContext::Connack),
            PropertyId::TopicAliasMaximum => matches!(context, PropertyContext::Connect | PropertyContext::Connack),
            PropertyId::TopicAlias => matches!(context, PropertyContext::Publish),
            PropertyId::MaximumQoS => matches!(context, PropertyContext::Connack),
            PropertyId::RetainAvailable => matches!(context, PropertyContext::Connack),
            PropertyId::UserProperty => true,
            PropertyId::MaximumPacketSize => matches!(context, PropertyContext::Connect | PropertyContext::Connack),
            PropertyId::WildcardSubscriptionAvailable => matches!(context, PropertyContext::Connack),
            PropertyId::SubscriptionIdentifierAvailable => matches!(context, PropertyContext::Connack),
            PropertyId::SharedSubscriptionAvailable => matches!(context, PropertyContext::Connack),
        }
    }

    /// Every identifier survives the trip through its value on the wire,
    /// and a value that names a property is the value of that property.
    pub proof fn lemma_roundtrip(self, code: u32)
        ensures
            Self::spec_from_code(self.spec_code()) == Some(self),
            self.spec_code() < 128,
            Self::spec_from_code(code) matches Some(id) ==> id.spec_code() == code,
    {
    }
}

/// The value of a property, as plain data.
pub enum PropertyValueView {
    Byte(u8),
    TwoByteInteger(u16),
    FourByteInteger(u32),
    VariableByteInteger(u32),
    Utf8String(Seq<char>),
    BinaryData(Seq<u8>),
    Utf8StringPair(Seq<char>, Seq<char>),
}

/// The value of a property.
#[derive(Debug, Clone, PartialEq, Eq)]
pub enum PropertyValue {
    Byte(u8),
    TwoByteInteger(u16),
    FourByteInteger(u32),
    VariableByteInteger(u32),
    Utf8String(MqttString),
    BinaryData(MqttBytes),
    Utf8StringPair(MqttString, MqttString),
}

impl View for PropertyValue {
    type V = PropertyValueView;

    open spec fn view(&self) -> PropertyValueView {
        match self {
            PropertyValue::Byte(v) => PropertyValueView::Byte(*v),
            PropertyValue::TwoByteInteger(v) => PropertyValueView::TwoByteInteger(*v),
            PropertyValue::FourByteInteger(v) => PropertyValueView::FourByteInteger(*v),
            PropertyValue::VariableByteInteger(v) => PropertyValueView::VariableByteInteger(*v),
            PropertyValue::Utf8String(v) => PropertyValueView::Utf8String(v@),
            PropertyValue::BinaryData(v) => PropertyValueView::BinaryData(v@),
            PropertyValue::Utf8StringPair(k, v) => PropertyValueView::Utf8StringPair(k@, v@),
        }
    }
}

/// The type of a value.
pub open spec fn spec_type_of(value: PropertyValueView) -> ValueType {
    match value {
        PropertyValueView::Byte(_) => ValueType::Byte,
        PropertyValueView::TwoByteInteger(_) => ValueType::TwoByteInteger,
        PropertyValueView::FourByteInteger(_) => ValueType::FourByteInteger,
        PropertyValueView::VariableByteInteger(_) => ValueType::VariableByteInteger,
        PropertyValueView::Utf8String(_) => ValueType::Utf8String,
        PropertyValueView::BinaryData(_) => ValueType::BinaryData,
        PropertyValueView::Utf8StringPair(_, _) => ValueType::Utf8StringPair,
    }
}

/// A value is well-formed when its texts are MQTT strings, its data is
/// short enough and its variable-length integer is in range.
pub open spec fn value_wf(value: PropertyValueView) -> bool {
    match value {
        PropertyValueView::VariableByteInteger(v) => v <= VARINT_MAX,
        PropertyValueView::Utf8String(v) => is_mqtt_string(v),
        PropertyValueView::BinaryData(v) => v.len() <= 65535,
        PropertyValueView::Utf8StringPair(k, v) => is_mqtt_string(k) && is_mqtt_string(v),
        _ => true,
    }
}

pub open spec fn spec_encode_value(value: PropertyValueView) -> Seq<u8> {
    match value {
        PropertyValueView::Byte(v) => seq![v],
        PropertyValueView::TwoByteInteger(v) => spec_encode_u16(v),
        PropertyValueView::FourByteInteger(v) => spec_encode_u32(v),
        PropertyValueView::VariableByteInteger(v) => spec_encode_varint(v),
        PropertyValueView::Utf8String(v) => spec_encode_string(v),
        PropertyValueView::BinaryData(v) => spec_encode_binary(v),
        PropertyValueView::Utf8StringPair(k, v) => spec_encode_string(k) + spec_encode_string(v),
    }
}

/// A value of the given type.
pub open spec fn spec_take_value(t: ValueType, s: Seq<u8>) -> Result<
    (PropertyValueView, Seq<u8>),
    DecodeError,
> {
    match t {
        ValueType::Byte => match spec_take_u8(s) {
            Ok((v, rest)) => Ok((PropertyValueView::Byte(v), rest)),
            Err(e) => Err(e),
        },
        ValueType::TwoByteInteger => match spec_take_u16_be(s) {
            Ok((v, rest)) => Ok((PropertyValueView::TwoByteInteger(v), rest)),
            Err(e) => Err(e),
        },
        ValueType::FourByteInteger => match spec_take_u32_be(s) {
            Ok((v, rest)) => Ok((PropertyValueView::FourByteInteger(v), rest)),
            Err(e) => Err(e),
        },
        ValueType::VariableByteInteger => match spec_take_varint(s) {
            Ok((v, rest)) => Ok((PropertyValueView::VariableByteInteger(v), rest)),
            Err(e) => Err(e),
        },
        ValueType::Utf8String => match spec_take_string(s) {
            Ok((v, rest)) => Ok((PropertyValueView::Utf8String(v), rest)),
            Err(e) => Err(e),
        },
        ValueType::BinaryData => match spec_take_binary(s) {
            Ok((v, rest)) => Ok((PropertyValueView::BinaryData(v), rest)),
            Err(e) => Err(e),
        },
        ValueType::Utf8StringPair => match spec_take_string(s) {
            Ok((k, r1)) => match spec_take_string(r1) {
                Ok((v, rest)) => Ok((PropertyValueView::Utf8StringPair(k, v), rest)),
                Err(e) => Err(e),
            },
            Err(e) => Err(e),
        },
    }
}

impl PropertyValue {
    pub fn type_of(&self) -> (t: ValueType)
        ensures
            t == spec_type_of(self@),
    {
        match self {
            PropertyValue::Byte(_) => ValueType::Byte,
            PropertyValue::TwoByteInteger(_) => ValueType::TwoByteInteger,
            PropertyValue::FourByteInteger(_) => ValueType::FourByteInteger,
            PropertyValue::VariableByteInteger(_) => ValueType::VariableByteInteger,
            PropertyValue::Utf8String(_) => ValueType::Utf8String,
            PropertyValue::BinaryData(_) => ValueType::BinaryData,
            PropertyValue::Utf8StringPair(_, _) => ValueType::Utf8StringPair,
        }
    }

    pub fn is_valid(&self) -> (b: bool)
        ensures
            b == value_wf(self@),
    {
        match self {
            PropertyValue::VariableByteInteger(v) => *v <= VARINT_MAX,
            PropertyValue::Utf8String(v) => {
                let _ = v.as_str();
                true
            },
            PropertyValue::BinaryData(v) => {
                let _ = v.as_slice();
                true
            },
            PropertyValue::Utf8StringPair(k, v) => {
                let _ = k.as_str();
                let _ = v.as_str();
                true
            },
            _ => true,
        }
    }

    pub fn parse(t: ValueType, input: &mut Reader<'_>) -> (r: MResult<PropertyValue>)
        ensures
            reads_view(spec_take_value(t, old(input)@), old(input)@, r, final(input)@),
            r matches Ok(v) ==> value_wf(v@) && spec_type_of(v@) == t,
    {
        match t {
            ValueType::Byte => Ok(PropertyValue::Byte(input.take_u8()?)),
            ValueType::TwoByteInteger => Ok(PropertyValue::TwoByteInteger(input.take_u16_be()?)),
            ValueType::FourByteInteger => Ok(PropertyValue::FourByteInteger(input.take_u32_be()?)),
            ValueType::VariableByteInteger => Ok(
                PropertyValue::VariableByteInteger(input.take_varint()?),
            ),
            ValueType::Utf8String => {
                let text = MqttString::parse(input)?;
                let _ = text.as_str();
                Ok(PropertyValue::Utf8String(text))
            },
            ValueType::BinaryData => {
                let data = MqttBytes::parse(input)?;
                let _ = data.as_slice();
                Ok(PropertyValue::BinaryData(data))
            },
            ValueType::Utf8StringPair => {
                let mut cur = *input;
                let key = MqttString::parse(&mut cur)?;
                let value = MqttString::parse(&mut cur)?;
                let _ = key.as_str();
                let _ = value.as_str();
                *input = cur;
                Ok(PropertyValue::Utf8StringPair(key, value))
            },
        }
    }

    /// Writes the value. A variable-length integer out of range is refused
    /// before anything is written.
    pub fn write<W: WriteMqttPacket>(&self, buffer: &mut W) -> (r: WResult<W>)
        ensures
            !value_wf(self@) ==> r is Err && *final(buffer) == *old(buffer),
            value_wf(self@) ==> write_outcome(
                old(buffer).state(),
                final(buffer).state(),
                spec_encode_value(self@),
                r is Ok,
            ),
    {
        match self {
            PropertyValue::Byte(v) => buffer.write_byte(*v),
            PropertyValue::TwoByteInteger(v) => buffer.write_u16(*v),
            PropertyValue::FourByteInteger(v) => buffer.write_u32(*v),
            PropertyValue::VariableByteInteger(v) => buffer.write_varint(*v),
            PropertyValue::Utf8String(v) => {
                let _ = v.as_str();
                v.write(buffer)
            },
            PropertyValue::BinaryData(v) => {
                let _ = v.as_slice();
                v.write(buffer)
            },
            PropertyValue::Utf8StringPair(k, v) => {
                let _ = k.as_str();
                let _ = v.as_str();
                let ghost before = buffer.state().written;
                k.write(buffer)?;
                let r = v.write(buffer);
                proof {
                    if r is Ok {
                        assert(buffer.state().written =~= before + spec_encode_value(self@));
                    }
                }
                r
            },
        }
    }
}

/// A property, as plain data.
pub struct PropertyView {
    pub id: PropertyId,
    pub value: PropertyValueView,
}

/// A property: an identifier and the value that stands under it.
#[derive(Debug, Clone, PartialEq, Eq)]
pub struct Property {
    pub id: PropertyId,
    pub value: PropertyValue,
}

impl View for Property {
    type V = PropertyView;

    open spec fn view(&self) -> PropertyView {
        PropertyView { id: self.id, value: self.value@ }
    }
}

/// A property is well-formed when its value is well-formed and of the type
/// of its identifier, and a subscription identifier is not zero.
pub open spec fn property_wf(p: PropertyView) -> bool {
    &&& value_wf(p.value)
    &&& spec_type_of(p.value) == p.id.spec_value_type()
    &&& (p.id == PropertyId::SubscriptionIdentifier ==> p.value
        != PropertyValueView::VariableByteInteger(0))
}

pub open spec fn spec_encode_property(p: PropertyView) -> Seq<u8> {
    spec_encode_varint(p.id.spec_code()) + spec_encode_value(p.value)
}

/// One property: its identifier, which is a variable-length integer, and
/// its value, whose type the identifier decides.
#[verifier::opaque]
pub open spec fn spec_take_property(s: Seq<u8>) -> Result<(PropertyView, Seq<u8>), DecodeError> {
    match spec_take_varint(s) {
        Err(e) => Err(e),
        Ok((code, r1)) => match PropertyId::spec_from_code(code) {
            None => Err(DecodeError::MalformedPacket(MalformedReason::UnknownProperty)),
            Some(id) => match spec_take_value(id.spec_value_type(), r1) {
                Err(e) => Err(e),
                Ok((value, rest)) => if id == PropertyId::SubscriptionIdentifier && value
                    == PropertyValueView::VariableByteInteger(0) {
                    Err(DecodeError::ProtocolError(ProtocolReason::ZeroSubscriptionIdentifier))
                } else {
                    Ok((PropertyView { id, value }, rest))
                },
            },
        },
    }
}

impl Property {
    pub fn is_valid(&self) -> (b: bool)
        ensures
            b == property_wf(self@),
    {
        let typed = match (self.value.type_of(), self.id.value_type()) {
            (ValueType::Byte, ValueType::Byte) => true,
            (ValueType::TwoByteInteger, ValueType::TwoByteInteger) => true,
            (ValueType::FourByteInteger, ValueType::FourByteInteger) => true,
            (ValueType::VariableByteInteger, ValueType::VariableByteInteger) => true,
            (ValueType::Utf8String, ValueType::Utf8String) => true,
            (ValueType::BinaryData, ValueType::BinaryData) => true,
            (ValueType::Utf8StringPair, ValueType::Utf8StringPair) => true,
            _ => false,
        };
        let nonzero = match (&self.id, &self.value) {
            (PropertyId::SubscriptionIdentifier, PropertyValue::VariableByteInteger(v)) => *v != 0,
            _ => true,
        };
        self.value.is_valid() && typed && nonzero
    }

    pub fn parse(input: &mut Reader<'_>) -> (r: MResult<Property>)
        ensures
            reads_view(spec_take_property(old(input)@), old(input)@, r, final(input)@),
            r matches Ok(p) ==> property_wf(p@),
            r is Ok ==> final(input)@.len() < old(input)@.len(),
    {
        proof {
            reveal(spec_take_property);
        }
        let mut cur = *input;
        let code: u32 = cur.take_varint()?;
        let id = match PropertyId::from_code(code) {
            None => {
                return Err(DecodeError::MalformedPacket(MalformedReason::UnknownProperty));
            },
            Some(id) => id,
        };
        let value = PropertyValue::parse(id.value_type(), &mut cur)?;
        let zero = match (&id, &value) {
            (PropertyId::SubscriptionIdentifier, PropertyValue::VariableByteInteger(v)) => *v == 0,
            _ => false,
        };
        if zero {
            return Err(DecodeError::ProtocolError(ProtocolReason::ZeroSubscriptionIdentifier));
        }
        *input = cur;
        Ok(Property { id, value })
    }

    /// Writes the property. A value that is not well-formed is refused.
    pub fn write<W: WriteMqttPacket>(&self, buffer: &mut W) -> (r: WResult<W>)
        ensures
            !value_wf(self@.value) ==> r is Err,
            value_wf(self@.value) ==> write_outcome(
                old(buffer).state(),
                final(buffer).state(),
                spec_encode_property(self@),
                r is Ok,
            ),
    {
        if !self.value.is_valid() {
            return Err(W::Error::from(MqttWriteError::Invariant));
        }
        let ghost before = buffer.state().written;
        buffer.write_varint(self.id.code())?;
        let r = self.value.write(buffer);
        proof {
            if r is Ok {
                assert(buffer.state().written =~= before + spec_encode_property(self@));
            }
        }
        r
    }
}

// ---------------------------------------------------------------------
// Blocks of properties
// ---------------------------------------------------------------------
/// The encodings of the properties, one for each.
pub open spec fn property_parts(es: Seq<PropertyView>) -> Seq<Seq<u8>> {
    Seq::new(es.len(), |i: int| spec_encode_property(es[i]))
}

/// The properties one after the other.
pub open spec fn spec_encode_entries(es: Seq<PropertyView>) -> Seq<u8> {
    concat_all(property_parts(es))
}

/// A block of properties: the length of what follows, then the properties.
pub open spec fn spec_encode_properties(es: Seq<PropertyView>) -> Seq<u8> {
    spec_encode_varint(spec_encode_entries(es).len() as u32) + spec_encode_entries(es)
}

/// Properties until the input ends, in the order of the input.
pub open spec fn spec_parse_entries(s: Seq<u8>) -> Result<Seq<PropertyView>, DecodeError>
    decreases s.len(),
{
    if s.len() == 0 {
        Ok(Seq::empty())
    } else {
        match spec_take_property(s) {
            Err(e) => Err(e),
            Ok((p, rest)) => match {
                proof {
                    reveal(spec_take_property);
                }
                spec_parse_entries(rest)
            } {
                Err(e) => Err(e),
                Ok(ps) => Ok(seq![p] + ps),
            },
        }
    }
}

/// Whether the identifier of entry `i` stands in an earlier entry too.
pub open spec fn seen_before(es: Seq<PropertyView>, i: int) -> bool {
    exists|j: int| 0 <= j < i && (#[trigger] es[j]).id == es[i].id
}

/// What is wrong with entry `i` in a block of the given context: a
/// property that may not stand there, or one that may not repeat and
/// stands there again.
pub open spec fn entry_violation(es: Seq<PropertyView>, i: int, context: PropertyContext) -> Option<
    ProtocolReason,
> {
    if !es[i].id.spec_allowed_in(context) {
        Some(ProtocolReason::PropertyNotAllowed)
    } else if !es[i].id.spec_repeatable() && seen_before(es, i) {
        Some(ProtocolReason::DuplicateProperty)
    } else {
        None
    }
}

/// The first violation among the entries from `from` on, as an error.
pub open spec fn spec_check_entries(es: Seq<PropertyView>, context: PropertyContext, from: int) -> Result<
    (),
    DecodeError,
>
    decreases es.len() - from,
{
    if from < 0 || from >= es.len() {
        Ok(())
    } else {
        match entry_violation(es, from, context) {
            Some(reason) => Err(DecodeError::ProtocolError(reason)),
            None => spec_check_entries(es, context, from + 1),
        }
    }
}

/// Every property may stand in the context, and none repeats that may not.
pub open spec fn entries_allowed(es: Seq<PropertyView>, context: PropertyContext) -> bool {
    forall|i: int| 0 <= i < es.len() ==> entry_violation(es, i, context) is None
}

/// A block is well-formed for a context when every property is
/// well-formed and may stand there, none repeats that may not, and the
/// properties together fit the length in front of them.
pub open spec fn properties_wf(es: Seq<PropertyView>, context: PropertyContext) -> bool {
    &&& forall|i: int| 0 <= i < es.len() ==> property_wf(#[trigger] es[i])
    &&& entries_allowed(es, context)
    &&& spec_encode_entries(es).len() <= VARINT_MAX
}

/// A block of properties in the given context: the length, then that many
/// bytes of properties, which must obey the rules of the context.
pub open spec fn spec_take_properties(s: Seq<u8>, context: PropertyContext) -> Result<
    (Seq<PropertyView>, Seq<u8>),
    DecodeError,
> {
    match spec_take_varint(s) {
        Err(e) => Err(e),
        Ok((len, rest)) => if rest.len() < len {
            Err(DecodeError::Incomplete)
        } else {
            match spec_parse_entries(rest.take(len as int)) {
                Err(e) => Err(spec_bounded(e)),
                Ok(es) => match spec_check_entries(es, context, 0) {
                    Err(e) => Err(e),
                    Ok(()) => Ok((es, rest.skip(len as int))),
                },
            }
        },
    }
}

/// The check finds a violation exactly when there is one.
pub proof fn lemma_check_entries(es: Seq<PropertyView>, context: PropertyContext, from: int)
    requires
        0 <= from <= es.len(),
    ensures
        spec_check_entries(es, context, from) is Ok <==> forall|i: int|
            from <= i < es.len() ==> entry_violation(es, i, context) is None,
    decreases es.len() - from,
{
    if from < es.len() {
        lemma_check_entries(es, context, from + 1);
    }
}

/// A block of properties, in the order of the wire. It holds at most one
/// entry for each property that may not repeat.
#[derive(Debug, Clone, PartialEq, Eq)]
pub struct Properties {
    pub entries: Vec<Property>,
}

impl View for Properties {
    type V = Seq<PropertyView>;

    open spec fn view(&self) -> Seq<PropertyView> {
        Seq::new(self.entries@.len(), |i: int| self.entries@[i]@)
    }
}

/// The value of the first entry under `id`.
pub open spec fn spec_first_value(es: Seq<PropertyView>, id: PropertyId, from: int) -> Option<
    PropertyValueView,
>
    decreases es.len() - from,
{
    if from < 0 || from >= es.len() {
        None
    } else if es[from].id == id {
        Some(es[from].value)
    } else {
        spec_first_value(es, id, from + 1)
    }
}

/// The user properties among the entries, as pairs of name and value, in
/// the order of the entries.
pub open spec fn spec_user_properties(es: Seq<PropertyView>) -> Seq<(Seq<char>, Seq<char>)>
    decreases es.len(),
{
    if es.len() == 0 {
        Seq::empty()
    } else {
        let earlier = spec_user_properties(es.drop_last());
        match es.last().value {
            PropertyValueView::Utf8StringPair(name, value) => if es.last().id
                == PropertyId::UserProperty {
                earlier.push((name, value))
            } else {
                earlier
            },
            _ => earlier,
        }
    }
}

/// A byte, where the value is one.
pub open spec fn byte_of(value: Option<PropertyValueView>) -> Option<u8> {
    match value {
        Some(PropertyValueView::Byte(v)) => Some(v),
        _ => None,
    }
}

/// A two-byte integer, where the value is one.
pub open spec fn two_byte_of(value: Option<PropertyValueView>) -> Option<u16> {
    match value {
        Some(PropertyValueView::TwoByteInteger(v)) => Some(v),
        _ => None,
    }
}

/// A four-byte integer, where the value is one.
pub open spec fn four_byte_of(value: Option<PropertyValueView>) -> Option<u32> {
    match value {
        Some(PropertyValueView::FourByteInteger(v)) => Some(v),
        _ => None,
    }
}

/// A text, where the value is one.
pub open spec fn string_of(value: Option<PropertyValueView>) -> Option<Seq<char>> {
    match value {
        Some(PropertyValueView::Utf8String(v)) => Some(v),
        _ => None,
    }
}

/// Binary data, where the value is such.
pub open spec fn binary_of(value: Option<PropertyValueView>) -> Option<Seq<u8>> {
    match value {
        Some(PropertyValueView::BinaryData(v)) => Some(v),
        _ => None,
    }
}

impl Properties {
    /// The byte under `id`, where the block holds one.
    pub fn byte(&self, id: PropertyId) -> (r: Option<u8>)
        ensures
            r == byte_of(spec_first_value(self@, id, 0)),
    {
        match self.get(id) {
            Some(PropertyValue::Byte(v)) => Some(*v),
            _ => None,
        }
    }

    /// The two-byte integer under `id`, where the block holds one.
    pub fn two_byte(&self, id: PropertyId) -> (r: Option<u16>)
        ensures
            r == two_byte_of(spec_first_value(self@, id, 0)),
    {
        match self.get(id) {
            Some(PropertyValue::TwoByteInteger(v)) => Some(*v),
            _ => None,
        }
    }

    /// The four-byte integer under `id`, where the block holds one.
    pub fn four_byte(&self, id: PropertyId) -> (r: Option<u32>)
        ensures
            r == four_byte_of(spec_first_value(self@, id, 0)),
    {
        match self.get(id) {
            Some(PropertyValue::FourByteInteger(v)) => Some(*v),
            _ => None,
        }
    }

    /// The text under `id`, where the block holds one.
    pub fn string(&self, id: PropertyId) -> (r: Option<&MqttString>)
        ensures
            match r {
                Some(v) => string_of(spec_first_value(self@, id, 0)) == Some(v@),
                None => string_of(spec_first_value(self@, id, 0)) is None,
            },
    {
        match self.get(id) {
            Some(PropertyValue::Utf8String(v)) => Some(v),
            _ => None,
        }
    }

    /// The binary data under `id`, where the block holds such.
    pub fn binary(&self, id: PropertyId) -> (r: Option<&MqttBytes>)
        ensures
            match r {
                Some(v) => binary_of(spec_first_value(self@, id, 0)) == Some(v@),
                None => binary_of(spec_first_value(self@, id, 0)) is None,
            },
    {
        match self.get(id) {
            Some(PropertyValue::BinaryData(v)) => Some(v),
            _ => None,
        }
    }

    /// The user properties of the block, in its order.
    pub fn user_properties(&self) -> (r: Vec<(&MqttString, &MqttString)>)
        ensures
            r@.len() == spec_user_properties(self@).len(),
            forall|i: int|
                0 <= i < r@.len() ==> (#[trigger] r@[i]).0@ == spec_user_properties(self@)[i].0
                    && r@[i].1@ == spec_user_properties(self@)[i].1,
    {
        let mut r: Vec<(&MqttString, &MqttString)> = Vec::new();
        let mut i: usize = 0;
        proof {
            assert(self@.take(0) =~= Seq::<PropertyView>::empty());
        }
        while i < self.entries.len()
            invariant
                i <= self.entries@.len(),
                r@.len() == spec_user_properties(self@.take(i as int)).len(),
                forall|k: int|
                    0 <= k < r@.len() ==> (#[trigger] r@[k]).0@ == spec_user_properties(
                        self@.take(i as int),
                    )[k].0 && r@[k].1@ == spec_user_properties(self@.take(i as int))[k].1,
            decreases self.entries@.len() - i,
        {
            proof {
                assert(self@.take(i + 1).drop_last() =~= self@.take(i as int));
                assert(self@.take(i + 1).last() == self@[i as int]);
            }
            let entry = &self.entries[i];
            match (&entry.id, &entry.value) {
                (PropertyId::UserProperty, PropertyValue::Utf8StringPair(name, value)) => {
                    r.push((name, value));
                },
                _ => {},
            }
            i = i + 1;
        }
        proof {
            assert(self@.take(self@.len() as int) =~= self@);
        }
        r
    }

    /// An empty block.
    pub fn new() -> (r: Properties)
        ensures
            r@.len() == 0,
    {
        Properties { entries: Vec::new() }
    }

    pub fn is_empty(&self) -> (b: bool)
        ensures
            b == (self@.len() == 0),
    {
        self.entries.len() == 0
    }

    /// Appends a property.
    pub fn push(&mut self, property: Property)
        ensures
            final(self)@ == old(self)@.push(property@),
    {
        self.entries.push(property);
        proof {
            assert(self@ =~= old(self)@.push(property@));
        }
    }

    /// The value of the first entry under `id`.
    pub fn get(&self, id: PropertyId) -> (r: Option<&PropertyValue>)
        ensures
            match r {
                Some(v) => spec_first_value(self@, id, 0) == Some(v@),
                None => spec_first_value(self@, id, 0) is None,
            },
    {
        let mut i: usize = 0;
        while i < self.entries.len()
            invariant
                i <= self.entries@.len(),
                spec_first_value(self@, id, 0) == spec_first_value(self@, id, i as int),
            decreases self.entries@.len() - i,
        {
            if self.entries[i].id == id {
                return Some(&self.entries[i].value);
            }
            i = i + 1;
        }
        None
    }

    /// The first violation of the rules of the context, as an error.
    pub fn check(&self, context: PropertyContext) -> (r: Result<(), DecodeError>)
        ensures
            r == spec_check_entries(self@, context, 0),
    {
        let mut i: usize = 0;
        while i < self.entries.len()
            invariant
                i <= self.entries@.len(),
                spec_check_entries(self@, context, 0) == spec_check_entries(self@, context, i as int),
            decreases self.entries@.len() - i,
        {
            let id = self.entries[i].id;
            if !id.allowed_in(context) {
                return Err(DecodeError::ProtocolError(ProtocolReason::PropertyNotAllowed));
            }
            if !id.repeatable() {
                let mut j: usize = 0;
                while j < i
                    invariant
                        j <= i,
                        i < self.entries@.len(),
                        id == self@[i as int].id,
                        id.spec_allowed_in(context),
                        !id.spec_repeatable(),
                        spec_check_entries(self@, context, 0) == spec_check_entries(
                            self@,
                            context,
                            i as int,
                        ),
                        forall|k: int| 0 <= k < j ==> (#[trigger] self@[k]).id != id,
                    decreases i - j,
                {
                    if self.entries[j].id == id {
                        proof {
                            assert(self@[j as int].id == id);
                            assert(seen_before(self@, i as int));
                        }
                        return Err(DecodeError::ProtocolError(ProtocolReason::DuplicateProperty));
                    }
                    j = j + 1;
                }
                proof {
                    assert(!seen_before(self@, i as int));
                }
            }
            i = i + 1;
        }
        Ok(())
    }

    /// Whether the block is well-formed for the context, whatever its size.
    pub fn is_valid(&self, context: PropertyContext) -> (b: bool)
        ensures
            b == ((forall|i: int| 0 <= i < self@.len() ==> property_wf(#[trigger] self@[i]))
                && entries_allowed(self@, context)),
    {
        let mut i: usize = 0;
        while i < self.entries.len()
            invariant
                i <= self.entries@.len(),
                forall|k: int| 0 <= k < i ==> property_wf(#[trigger] self@[k]),
            decreases self.entries@.len() - i,
        {
            if !self.entries[i].is_valid() {
                proof {
                    assert(!property_wf(self@[i as int]));
                }
                return false;
            }
            i = i + 1;
        }
        proof {
            lemma_check_entries(self@, context, 0);
        }
        self.check(context).is_ok()
    }

    /// Writes the properties one after the other, without a length in
    /// front. A value that is not well-formed is refused.
    pub fn write_entries<W: WriteMqttPacket>(&self, buffer: &mut W) -> (r: WResult<W>)
        ensures
            !(forall|i: int| 0 <= i < self@.len() ==> value_wf((#[trigger] self@[i]).value)) ==> r
                is Err,
            (forall|i: int| 0 <= i < self@.len() ==> value_wf((#[trigger] self@[i]).value))
                ==> write_outcome(
                old(buffer).state(),
                final(buffer).state(),
                spec_encode_entries(self@),
                r is Ok,
            ),
    {
        let ghost parts = property_parts(self@);
        let mut i: usize = 0;
        while i < self.entries.len()
            invariant
                i <= self.entries@.len(),
                forall|k: int| 0 <= k < i ==> value_wf((#[trigger] self@[k]).value),
            decreases self.entries@.len() - i,
        {
            if !self.entries[i].value.is_valid() {
                proof {
                    assert(!value_wf(self@[i as int].value));
                }
                return Err(W::Error::from(MqttWriteError::Invariant));
            }
            i = i + 1;
        }
        i = 0;
        proof {
            assert(parts.take(0) =~= Seq::<Seq<u8>>::empty());
            assert(buffer.state().written + concat_first(parts, 0) =~= buffer.state().written);
        }
        while i < self.entries.len()
            invariant
                i <= self.entries@.len(),
                parts == property_parts(self@),
                forall|k: int| 0 <= k < self@.len() ==> value_wf((#[trigger] self@[k]).value),
                write_outcome(old(buffer).state(), buffer.state(), concat_first(parts, i as int), true),
            decreases self.entries@.len() - i,
        {
            proof {
                lemma_concat_step(parts, i as int);
                assert(parts[i as int] == spec_encode_property(self@[i as int]));
                assert(value_wf(self@[i as int].value));
            }
            self.entries[i].write(buffer)?;
            proof {
                assert(buffer.state().written =~= old(buffer).state().written + concat_first(
                    parts,
                    i + 1,
                ));
            }
            i = i + 1;
        }
        proof {
            assert(parts.take(parts.len() as int) =~= parts);
        }
        Ok(())
    }

    /// Number of bytes of the properties without the length in front,
    /// where the block is well-formed but for the context.
    pub fn entries_size(&self) -> (r: Option<u32>)
        ensures
            match r {
                Some(n) => n == spec_encode_entries(self@).len() && n <= VARINT_MAX && forall|i: int|
                    0 <= i < self@.len() ==> value_wf((#[trigger] self@[i]).value),
                None => spec_encode_entries(self@).len() > VARINT_MAX || !(forall|i: int|
                    0 <= i < self@.len() ==> value_wf((#[trigger] self@[i]).value)),
            },
    {
        let mut counter = CountingWriter::new();
        match self.write_entries(&mut counter) {
            Ok(()) => {
                proof {
                    assert(counter.bytes@ =~= spec_encode_entries(self@));
                }
                if counter.count <= VARINT_MAX as usize {
                    Some(counter.count as u32)
                } else {
                    None
                }
            },
            Err(_) => None,
        }
    }

    /// Decodes a block of properties that stands in the given context.
    pub fn parse(input: &mut Reader<'_>, context: PropertyContext) -> (r: MResult<Properties>)
        ensures
            reads_view(spec_take_properties(old(input)@, context), old(input)@, r, final(input)@),
            r matches Ok(p) ==> forall|i: int| 0 <= i < p@.len() ==> property_wf(#[trigger] p@[i]),
    {
        let mut cur = *input;
        let len: u32 = cur.take_varint()?;
        let ghost after_len = cur@;
        let mut block = cur.take_reader(len as usize)?;
        let ghost start = block@;
        let mut entries: Vec<Property> = Vec::new();
        let ghost shown = Seq::<PropertyView>::empty();
        while !block.is_empty()
            invariant
                spec_take_varint(old(input)@) == Ok::<(u32, Seq<u8>), DecodeError>((len, after_len)),
                after_len.len() >= len,
                start == after_len.take(len as int),
                shown == Seq::new(entries@.len(), |i: int| entries@[i]@),
                forall|i: int| 0 <= i < shown.len() ==> property_wf(#[trigger] shown[i]),
                spec_parse_entries(start) == (match spec_parse_entries(block@) {
                    Ok(ps) => Ok::<Seq<PropertyView>, DecodeError>(shown + ps),
                    Err(e) => Err(e),
                }),
            decreases block@.len(),
        {
            let property = match Property::parse(&mut block) {
                Ok(p) => p,
                Err(e) => {
                    return Err(bounded(e));
                },
            };
            proof {
                let x = property@;
                match spec_parse_entries(block@) {
                    Ok(ps) => {
                        assert(shown + (seq![x] + ps) =~= shown.push(x) + ps);
                    },
                    Err(e) => {},
                }
                shown = shown.push(x);
            }
            entries.push(property);
            proof {
                assert(shown =~= Seq::new(entries@.len(), |i: int| entries@[i]@));
            }
        }
        proof {
            assert(shown + Seq::<PropertyView>::empty() =~= shown);
        }
        let properties = Properties { entries };
        proof {
            assert(properties@ =~= shown);
        }
        properties.check(context)?;
        *input = cur;
        Ok(properties)
    }

    /// Writes the block: the length of the properties, then the
    /// properties. A block with a value that is not well-formed, or too
    /// long for its length field, is refused before anything is written.
    pub fn write<W: WriteMqttPacket>(&self, buffer: &mut W) -> (r: WResult<W>)
        ensures
            !(spec_encode_entries(self@).len() <= VARINT_MAX && forall|i: int|
                0 <= i < self@.len() ==> value_wf((#[trigger] self@[i]).value)) ==> r is Err
                && *final(buffer) == *old(buffer),
            (spec_encode_entries(self@).len() <= VARINT_MAX && forall|i: int|
                0 <= i < self@.len() ==> value_wf((#[trigger] self@[i]).value)) ==> write_outcome(
                old(buffer).state(),
                final(buffer).state(),
                spec_encode_properties(self@),
                r is Ok,
            ),
    {
        let len: u32 = match self.entries_size() {
            None => {
                return Err(W::Error::from(MqttWriteError::Invariant));
            },
            Some(n) => n,
        };
        let ghost before = buffer.state().written;
        buffer.write_varint(len)?;
        let r = self.write_entries(buffer);
        proof {
            if r is Ok {
                assert(buffer.state().written =~= before + spec_encode_properties(self@));
            }
        }
        r
    }

    /// Number of bytes of the block, length included, where the block is
    /// well-formed but for the context.
    pub fn binary_size(&self) -> (r: Option<u32>)
        ensures
            match r {
                Some(n) => n == spec_encode_properties(self@).len() && spec_encode_entries(
                    self@,
                ).len() <= VARINT_MAX && forall|i: int|
                    0 <= i < self@.len() ==> value_wf((#[trigger] self@[i]).value),
                None => spec_encode_entries(self@).len() > VARINT_MAX || !(forall|i: int|
                    0 <= i < self@.len() ==> value_wf((#[trigger] self@[i]).value)),
            },
    {
        match self.entries_size() {
            None => None,
            Some(n) => {
                proof {
                    crate::wire::roundtrip::lemma_varint_shape(n);
                }
                Some(crate::wire::integers::varint_len(n) + n)
            },
        }
    }
}

} // verus!
