//! Reason codes. Each packet type has its own set; codes of the same name
//! share their byte across the sets.

use vstd::prelude::*;

verus! {

/// The reason code of a CONNACK.
#[derive(Clone, Copy, Debug, PartialEq, Eq, Hash, Structural)]
pub enum ConnackReasonCode {
    Success,
    UnspecifiedError,
    MalformedPacket,
    ProtocolError,
    ImplementationSpecificError,
    UnsupportedProtocolVersion,
    ClientIdentifierNotValid,
    BadUsernameOrPassword,
    NotAuthorized,
    ServerUnavailable,
    ServerBusy,
    Banned,
    BadAuthenticationMethod,
    TopicNameInvalid,
    PacketTooLarge,
    QuotaExceeded,
    PayloadFormatInvalid,
    RetainNotSupported,
    QoSNotSupported,
    UseAnotherServer,
    ServerMoved,
    ConnectionRateExceeded,
}

impl ConnackReasonCode {
    /// The byte of the code on the wire.
    pub open spec fn spec_to_byte(self) -> u8 {
        match self {
            ConnackReasonCode::Success => 0x00,
            ConnackReasonCode::UnspecifiedError => 0x80,
            ConnackReasonCode::MalformedPacket => 0x81,
            ConnackReasonCode::ProtocolError => 0x82,
            ConnackReasonCode::ImplementationSpecificError => 0x83,
            ConnackReasonCode::UnsupportedProtocolVersion => 0x84,
            ConnackReasonCode::ClientIdentifierNotValid => 0x85,
            ConnackReasonCode::BadUsernameOrPassword => 0x86,
            ConnackReasonCode::NotAuthorized => 0x87,
            ConnackReasonCode::ServerUnavailable => 0x88,
            ConnackReasonCode::ServerBusy => 0x89,
            ConnackReasonCode::Banned => 0x8A,
            ConnackReasonCode::BadAuthenticationMethod => 0x8C,
            ConnackReasonCode::TopicNameInvalid => 0x90,
            ConnackReasonCode::PacketTooLarge => 0x95,
            ConnackReasonCode::QuotaExceeded => 0x97,
            ConnackReasonCode::PayloadFormatInvalid => 0x99,
            ConnackReasonCode::RetainNotSupported => 0x9A,
            ConnackReasonCode::QoSNotSupported => 0x9B,
            ConnackReasonCode::UseAnotherServer => 0x9C,
            ConnackReasonCode::ServerMoved => 0x9D,
            ConnackReasonCode::ConnectionRateExceeded => 0x9F,
        }
    }

    /// The code with the given byte, where this packet type has one.
    pub open spec fn spec_from_byte(byte: u8) -> Option<ConnackReasonCode> {
        if byte == 0x00 {
            Some(ConnackReasonCode::Success)
        }         else if byte == 0x80 {
            Some(ConnackReasonCode::UnspecifiedError)
        }         else if byte == 0x81 {
            Some(ConnackReasonCode::MalformedPacket)
        }         else if byte == 0x82 {
            Some(ConnackReasonCode::ProtocolError)
        }         else if byte == 0x83 {
            Some(ConnackReasonCode::ImplementationSpecificError)
        }         else if byte == 0x84 {
            Some(ConnackReasonCode::UnsupportedProtocolVersion)
        }         else if byte == 0x85 {
            Some(ConnackReasonCode::ClientIdentifierNotValid)
        }         else if byte == 0x86 {
            Some(ConnackReasonCode::BadUsernameOrPassword)
        }         else if byte == 0x87 {
            Some(ConnackReasonCode::NotAuthorized)
        }         else if byte == 0x88 {
            Some(ConnackReasonCode::ServerUnavailable)
        }         else if byte == 0x89 {
            Some(ConnackReasonCode::ServerBusy)
        }         else if byte == 0x8A {
            Some(ConnackReasonCode::Banned)
        }         else if byte == 0x8C {
            Some(ConnackReasonCode::BadAuthenticationMethod)
        }         else if byte == 0x90 {
            Some(ConnackReasonCode::TopicNameInvalid)
        }         else if byte == 0x95 {
            Some(ConnackReasonCode::PacketTooLarge)
        }         else if byte == 0x97 {
            Some(ConnackReasonCode::QuotaExceeded)
        }         else if byte == 0x99 {
            Some(ConnackReasonCode::PayloadFormatInvalid)
        }         else if byte == 0x9A {
            Some(ConnackReasonCode::RetainNotSupported)
        }         else if byte == 0x9B {
            Some(ConnackReasonCode::QoSNotSupported)
        }         else if byte == 0x9C {
            Some(ConnackReasonCode::UseAnotherServer)
        }         else if byte == 0x9D {
            Some(ConnackReasonCode::ServerMoved)
        }         else if byte == 0x9F {
            Some(ConnackReasonCode::ConnectionRateExceeded)
        } else {
            None
        }
    }

    pub fn to_byte(self) -> (byte: u8)
        ensures
            byte == self.spec_to_byte(),
    {
        match self {
            ConnackReasonCode::Success => 0x00,
            ConnackReasonCode::UnspecifiedError => 0x80,
            ConnackReasonCode::MalformedPacket => 0x81,
            ConnackReasonCode::ProtocolError => 0x82,
            ConnackReasonCode::ImplementationSpecificError => 0x83,
            ConnackReasonCode::UnsupportedProtocolVersion => 0x84,
            ConnackReasonCode::ClientIdentifierNotValid => 0x85,
            ConnackReasonCode::BadUsernameOrPassword => 0x86,
            ConnackReasonCode::NotAuthorized => 0x87,
            ConnackReasonCode::ServerUnavailable => 0x88,
            ConnackReasonCode::ServerBusy => 0x89,
            ConnackReasonCode::Banned => 0x8A,
            ConnackReasonCode::BadAuthenticationMethod => 0x8C,
            ConnackReasonCode::TopicNameInvalid => 0x90,
            ConnackReasonCode::PacketTooLarge => 0x95,
            ConnackReasonCode::QuotaExceeded => 0x97,
            ConnackReasonCode::PayloadFormatInvalid => 0x99,
            ConnackReasonCode::RetainNotSupported => 0x9A,
            ConnackReasonCode::QoSNotSupported => 0x9B,
            ConnackReasonCode::UseAnotherServer => 0x9C,
            ConnackReasonCode::ServerMoved => 0x9D,
            ConnackReasonCode::ConnectionRateExceeded => 0x9F,
        }
    }

    pub fn from_byte(byte: u8) -> (r: Option<ConnackReasonCode>)
        ensures
            r == Self::spec_from_byte(byte),
    {
        if byte == 0x00 {
            Some(ConnackReasonCode::Success)
        }         else if byte == 0x80 {
            Some(ConnackReasonCode::UnspecifiedError)
        }         else if byte == 0x81 {
            Some(ConnackReasonCode::MalformedPacket)
        }         else if byte == 0x82 {
            Some(ConnackReasonCode::ProtocolError)
        }         else if byte == 0x83 {
            Some(ConnackReasonCode::ImplementationSpecificError)
        }         else if byte == 0x84 {
            Some(ConnackReasonCode::UnsupportedProtocolVersion)
        }         else if byte == 0x85 {
            Some(ConnackReasonCode::ClientIdentifierNotValid)
        }         else if byte == 0x86 {
            Some(ConnackReasonCode::BadUsernameOrPassword)
        }         else if byte == 0x87 {
            Some(ConnackReasonCode::NotAuthorized)
        }         else if byte == 0x88 {
            Some(ConnackReasonCode::ServerUnavailable)
        }         else if byte == 0x89 {
            Some(ConnackReasonCode::ServerBusy)
        }         else if byte == 0x8A {
            Some(ConnackReasonCode::Banned)
        }         else if byte == 0x8C {
            Some(ConnackReasonCode::BadAuthenticationMethod)
        }         else if byte == 0x90 {
            Some(ConnackReasonCode::TopicNameInvalid)
        }         else if byte == 0x95 {
            Some(ConnackReasonCode::PacketTooLarge)
        }         else if byte == 0x97 {
            Some(ConnackReasonCode::QuotaExceeded)
        }         else if byte == 0x99 {
            Some(ConnackReasonCode::PayloadFormatInvalid)
        }         else if byte == 0x9A {
            Some(ConnackReasonCode::RetainNotSupported)
        }         else if byte == 0x9B {
            Some(ConnackReasonCode::QoSNotSupported)
        }         else if byte == 0x9C {
            Some(ConnackReasonCode::UseAnotherServer)
        }         else if byte == 0x9D {
            Some(ConnackReasonCode::ServerMoved)
        }         else if byte == 0x9F {
            Some(ConnackReasonCode::ConnectionRateExceeded)
        } else {
            None
        }
    }

    /// Every code survives the trip through its byte, and a byte that
    /// names a code is the byte of that code.
    pub proof fn lemma_roundtrip(self, byte: u8)
        ensures
            Self::spec_from_byte(self.spec_to_byte()) == Some(self),
            Self::spec_from_byte(byte) matches Some(c) ==> c.spec_to_byte() == byte,
    {
    }
}

/// The reason code of a PUBACK.
#[derive(Clone, Copy, Debug, PartialEq, Eq, Hash, Structural)]
pub enum PubackReasonCode {
    Success,
    NoMatchingSubscribers,
    UnspecifiedError,
    ImplementationSpecificError,
    NotAuthorized,
    TopicNameInvalid,
    PacketIdentifierInUse,
    QuotaExceeded,
    PayloadFormatInvalid,
}

impl PubackReasonCode {
    /// The byte of the code on the wire.
    pub open spec fn spec_to_byte(self) -> u8 {
        match self {
            PubackReasonCode::Success => 0x00,
            PubackReasonCode::NoMatchingSubscribers => 0x10,
            PubackReasonCode::UnspecifiedError => 0x80,
            PubackReasonCode::ImplementationSpecificError => 0x83,
            PubackReasonCode::NotAuthorized => 0x87,
            PubackReasonCode::TopicNameInvalid => 0x90,
            PubackReasonCode::PacketIdentifierInUse => 0x91,
            PubackReasonCode::QuotaExceeded => 0x97,
            PubackReasonCode::PayloadFormatInvalid => 0x99,
        }
    }

    /// The code with the given byte, where this packet type has one.
    pub open spec fn spec_from_byte(byte: u8) -> Option<PubackReasonCode> {
        if byte == 0x00 {
            Some(PubackReasonCode::Success)
        }         else if byte == 0x10 {
            Some(PubackReasonCode::NoMatchingSubscribers)
        }         else if byte == 0x80 {
            Some(PubackReasonCode::UnspecifiedError)
        }         else if byte == 0x83 {
            Some(PubackReasonCode::ImplementationSpecificError)
        }         else if byte == 0x87 {
            Some(PubackReasonCode::NotAuthorized)
        }         else if byte == 0x90 {
            Some(PubackReasonCode::TopicNameInvalid)
        }         else if byte == 0x91 {
            Some(PubackReasonCode::PacketIdentifierInUse)
        }         else if byte == 0x97 {
            Some(PubackReasonCode::QuotaExceeded)
        }         else if byte == 0x99 {
            Some(PubackReasonCode::PayloadFormatInvalid)
        } else {
            None
        }
    }

    pub fn to_byte(self) -> (byte: u8)
        ensures
            byte == self.spec_to_byte(),
    {
        match self {
            PubackReasonCode::Success => 0x00,
            PubackReasonCode::NoMatchingSubscribers => 0x10,
            PubackReasonCode::UnspecifiedError => 0x80,
            PubackReasonCode::ImplementationSpecificError => 0x83,
            PubackReasonCode::NotAuthorized => 0x87,
            PubackReasonCode::TopicNameInvalid => 0x90,
            PubackReasonCode::PacketIdentifierInUse => 0x91,
            PubackReasonCode::QuotaExceeded => 0x97,
            PubackReasonCode::PayloadFormatInvalid => 0x99,
        }
    }

    pub fn from_byte(byte: u8) -> (r: Option<PubackReasonCode>)
        ensures
            r == Self::spec_from_byte(byte),
    {
        if byte == 0x00 {
            Some(PubackReasonCode::Success)
        }         else if byte == 0x10 {
            Some(PubackReasonCode::NoMatchingSubscribers)
        }         else if byte == 0x80 {
            Some(PubackReasonCode::UnspecifiedError)
        }         else if byte == 0x83 {
            Some(PubackReasonCode::ImplementationSpecificError)
        }         else if byte == 0x87 {
            Some(PubackReasonCode::NotAuthorized)
        }         else if byte == 0x90 {
            Some(PubackReasonCode::TopicNameInvalid)
        }         else if byte == 0x91 {
            Some(PubackReasonCode::PacketIdentifierInUse)
        }         else if byte == 0x97 {
            Some(PubackReasonCode::QuotaExceeded)
        }         else if byte == 0x99 {
            Some(PubackReasonCode::PayloadFormatInvalid)
        } else {
            None
        }
    }

    /// Every code survives the trip through its byte, and a byte that
    /// names a code is the byte of that code.
    pub proof fn lemma_roundtrip(self, byte: u8)
        ensures
            Self::spec_from_byte(self.spec_to_byte()) == Some(self),
            Self::spec_from_byte(byte) matches Some(c) ==> c.spec_to_byte() == byte,
    {
    }
}

/// The reason code of a PUBREC.
#[derive(Clone, Copy, Debug, PartialEq, Eq, Hash, Structural)]
pub enum PubrecReasonCode {
    Success,
    NoMatchingSubscribers,
    UnspecifiedError,
    ImplementationSpecificError,
    NotAuthorized,
    TopicNameInvalid,
    PacketIdentifierInUse,
    QuotaExceeded,
    PayloadFormatInvalid,
}

impl PubrecReasonCode {
    /// The byte of the code on the wire.
    pub open spec fn spec_to_byte(self) -> u8 {
        match self {
            PubrecReasonCode::Success => 0x00,
            PubrecReasonCode::NoMatchingSubscribers => 0x10,
            PubrecReasonCode::UnspecifiedError => 0x80,
            PubrecReasonCode::ImplementationSpecificError => 0x83,
            PubrecReasonCode::NotAuthorized => 0x87,
            PubrecReasonCode::TopicNameInvalid => 0x90,
            PubrecReasonCode::PacketIdentifierInUse => 0x91,
            PubrecReasonCode::QuotaExceeded => 0x97,
            PubrecReasonCode::PayloadFormatInvalid => 0x99,
        }
    }

    /// The code with the given byte, where this packet type has one.
    pub open spec fn spec_from_byte(byte: u8) -> Option<PubrecReasonCode> {
        if byte == 0x00 {
            Some(PubrecReasonCode::Success)
        }         else if byte == 0x10 {
            Some(PubrecReasonCode::NoMatchingSubscribers)
        }         else if byte == 0x80 {
            Some(PubrecReasonCode::UnspecifiedError)
        }         else if byte == 0x83 {
            Some(PubrecReasonCode::ImplementationSpecificError)
        }         else if byte == 0x87 {
            Some(PubrecReasonCode::NotAuthorized)
        }         else if byte == 0x90 {
            Some(PubrecReasonCode::TopicNameInvalid)
        }         else if byte == 0x91 {
            Some(PubrecReasonCode::PacketIdentifierInUse)
        }         else if byte == 0x97 {
            Some(PubrecReasonCode::QuotaExceeded)
        }         else if byte == 0x99 {
            Some(PubrecReasonCode::PayloadFormatInvalid)
        } else {
            None
        }
    }

    pub fn to_byte(self) -> (byte: u8)
        ensures
            byte == self.spec_to_byte(),
    {
        match self {
            PubrecReasonCode::Success => 0x00,
            PubrecReasonCode::NoMatchingSubscribers => 0x10,
            PubrecReasonCode::UnspecifiedError => 0x80,
            PubrecReasonCode::ImplementationSpecificError => 0x83,
            PubrecReasonCode::NotAuthorized => 0x87,
            PubrecReasonCode::TopicNameInvalid => 0x90,
            PubrecReasonCode::PacketIdentifierInUse => 0x91,
            PubrecReasonCode::QuotaExceeded => 0x97,
            PubrecReasonCode::PayloadFormatInvalid => 0x99,
        }
    }

    pub fn from_byte(byte: u8) -> (r: Option<PubrecReasonCode>)
        ensures
            r == Self::spec_from_byte(byte),
    {
        if byte == 0x00 {
            Some(PubrecReasonCode::Success)
        }         else if byte == 0x10 {
            Some(PubrecReasonCode::NoMatchingSubscribers)
        }         else if byte == 0x80 {
            Some(PubrecReasonCode::UnspecifiedError)
        }         else if byte == 0x83 {
            Some(PubrecReasonCode::ImplementationSpecificError)
        }         else if byte == 0x87 {
            Some(PubrecReasonCode::NotAuthorized)
        }         else if byte == 0x90 {
            Some(PubrecReasonCode::TopicNameInvalid)
        }         else if byte == 0x91 {
            Some(PubrecReasonCode::PacketIdentifierInUse)
        }         else if byte == 0x97 {
            Some(PubrecReasonCode::QuotaExceeded)
        }         else if byte == 0x99 {
            Some(PubrecReasonCode::PayloadFormatInvalid)
        } else {
            None
        }
    }

    /// Every code survives the trip through its byte, and a byte that
    /// names a code is the byte of that code.
    pub proof fn lemma_roundtrip(self, byte: u8)
        ensures
            Self::spec_from_byte(self.spec_to_byte()) == Some(self),
            Self::spec_from_byte(byte) matches Some(c) ==> c.spec_to_byte() == byte,
    {
    }
}

/// The reason code of a PUBREL.
#[derive(Clone, Copy, Debug, PartialEq, Eq, Hash, Structural)]
pub enum PubrelReasonCode {
    Success,
    PacketIdentifierNotFound,
}

impl PubrelReasonCode {
    /// The byte of the code on the wire.
    pub open spec fn spec_to_byte(self) -> u8 {
        match self {
            PubrelReasonCode::Success => 0x00,
            PubrelReasonCode::PacketIdentifierNotFound => 0x92,
        }
    }

    /// The code with the given byte, where this packet type has one.
    pub open spec fn spec_from_byte(byte: u8) -> Option<PubrelReasonCode> {
        if byte == 0x00 {
            Some(PubrelReasonCode::Success)
        }         else if byte == 0x92 {
            Some(PubrelReasonCode::PacketIdentifierNotFound)
        } else {
            None
        }
    }

    pub fn to_byte(self) -> (byte: u8)
        ensures
            byte == self.spec_to_byte(),
    {
        match self {
            PubrelReasonCode::Success => 0x00,
            PubrelReasonCode::PacketIdentifierNotFound => 0x92,
        }
    }

    pub fn from_byte(byte: u8) -> (r: Option<PubrelReasonCode>)
        ensures
            r == Self::spec_from_byte(byte),
    {
        if byte == 0x00 {
            Some(PubrelReasonCode::Success)
        }         else if byte == 0x92 {
            Some(PubrelReasonCode::PacketIdentifierNotFound)
        } else {
            None
        }
    }

    /// Every code survives the trip through its byte, and a byte that
    /// names a code is the byte of that code.
    pub proof fn lemma_roundtrip(self, byte: u8)
        ensures
            Self::spec_from_byte(self.spec_to_byte()) == Some(self),
            Self::spec_from_byte(byte) matches Some(c) ==> c.spec_to_byte() == byte,
    {
    }
}

/// The reason code of a PUBCOMP.
#[derive(Clone, Copy, Debug, PartialEq, Eq, Hash, Structural)]
pub enum PubcompReasonCode {
    Success,
    PacketIdentifierNotFound,
}

impl PubcompReasonCode {
    /// The byte of the code on the wire.
    pub open spec fn spec_to_byte(self) -> u8 {
        match self {
            PubcompReasonCode::Success => 0x00,
            PubcompReasonCode::PacketIdentifierNotFound => 0x92,
        }
    }

    /// The code with the given byte, where this packet type has one.
    pub open spec fn spec_from_byte(byte: u8) -> Option<PubcompReasonCode> {
        if byte == 0x00 {
            Some(PubcompReasonCode::Success)
        }         else if byte == 0x92 {
            Some(PubcompReasonCode::PacketIdentifierNotFound)
        } else {
            None
        }
    }

    pub fn to_byte(self) -> (byte: u8)
        ensures
            byte == self.spec_to_byte(),
    {
        match self {
            PubcompReasonCode::Success => 0x00,
            PubcompReasonCode::PacketIdentifierNotFound => 0x92,
        }
    }

    pub fn from_byte(byte: u8) -> (r: Option<PubcompReasonCode>)
        ensures
            r == Self::spec_from_byte(byte),
    {
        if byte == 0x00 {
            Some(PubcompReasonCode::Success)
        }         else if byte == 0x92 {
            Some(PubcompReasonCode::PacketIdentifierNotFound)
        } else {
            None
        }
    }

    /// Every code survives the trip through its byte, and a byte that
    /// names a code is the byte of that code.
    pub proof fn lemma_roundtrip(self, byte: u8)
        ensures
            Self::spec_from_byte(self.spec_to_byte()) == Some(self),
            Self::spec_from_byte(byte) matches Some(c) ==> c.spec_to_byte() == byte,
    {
    }
}

/// The reason code of one entry of a SUBACK.
#[derive(Clone, Copy, Debug, PartialEq, Eq, Hash, Structural)]
pub enum SubackReasonCode {
    GrantedQoS0,
    GrantedQoS1,
    GrantedQoS2,
    UnspecifiedError,
    ImplementationSpecificError,
    NotAuthorized,
    TopicFilterInvalid,
    PacketIdentifierInUse,
    QuotaExceeded,
    SharedSubscriptionsNotSupported,
    SubscriptionIdentifiersNotSupported,
    WildcardSubscriptionsNotSupported,
}

impl SubackReasonCode {
    /// The byte of the code on the wire.
    pub open spec fn spec_to_byte(self) -> u8 {
        match self {
            SubackReasonCode::GrantedQoS0 => 0x00,
            SubackReasonCode::GrantedQoS1 => 0x01,
            SubackReasonCode::GrantedQoS2 => 0x02,
            SubackReasonCode::UnspecifiedError => 0x80,
            SubackReasonCode::ImplementationSpecificError => 0x83,
            SubackReasonCode::NotAuthorized => 0x87,
            SubackReasonCode::TopicFilterInvalid => 0x8F,
            SubackReasonCode::PacketIdentifierInUse => 0x91,
            SubackReasonCode::QuotaExceeded => 0x97,
            SubackReasonCode::SharedSubscriptionsNotSupported => 0x9E,
            SubackReasonCode::SubscriptionIdentifiersNotSupported => 0xA1,
            SubackReasonCode::WildcardSubscriptionsNotSupported => 0xA2,
        }
    }

    /// The code with the given byte, where this packet type has one.
    pub open spec fn spec_from_byte(byte: u8) -> Option<SubackReasonCode> {
        if byte == 0x00 {
            Some(SubackReasonCode::GrantedQoS0)
        }         else if byte == 0x01 {
            Some(SubackReasonCode::GrantedQoS1)
        }         else if byte == 0x02 {
            Some(SubackReasonCode::GrantedQoS2)
        }         else if byte == 0x80 {
            Some(SubackReasonCode::UnspecifiedError)
        }         else if byte == 0x83 {
            Some(SubackReasonCode::ImplementationSpecificError)
        }         else if byte == 0x87 {
            Some(SubackReasonCode::NotAuthorized)
        }         else if byte == 0x8F {
            Some(SubackReasonCode::TopicFilterInvalid)
        }         else if byte == 0x91 {
            Some(SubackReasonCode::PacketIdentifierInUse)
        }         else if byte == 0x97 {
            Some(SubackReasonCode::QuotaExceeded)
        }         else if byte == 0x9E {
            Some(SubackReasonCode::SharedSubscriptionsNotSupported)
        }         else if byte == 0xA1 {
            Some(SubackReasonCode::SubscriptionIdentifiersNotSupported)
        }         else if byte == 0xA2 {
            Some(SubackReasonCode::WildcardSubscriptionsNotSupported)
        } else {
            None
        }
    }

    pub fn to_byte(self) -> (byte: u8)
        ensures
            byte == self.spec_to_byte(),
    {
        match self {
            SubackReasonCode::GrantedQoS0 => 0x00,
            SubackReasonCode::GrantedQoS1 => 0x01,
            SubackReasonCode::GrantedQoS2 => 0x02,
            SubackReasonCode::UnspecifiedError => 0x80,
            SubackReasonCode::ImplementationSpecificError => 0x83,
            SubackReasonCode::NotAuthorized => 0x87,
            SubackReasonCode::TopicFilterInvalid => 0x8F,
            SubackReasonCode::PacketIdentifierInUse => 0x91,
            SubackReasonCode::QuotaExceeded => 0x97,
            SubackReasonCode::SharedSubscriptionsNotSupported => 0x9E,
            SubackReasonCode::SubscriptionIdentifiersNotSupported => 0xA1,
            SubackReasonCode::WildcardSubscriptionsNotSupported => 0xA2,
        }
    }

    pub fn from_byte(byte: u8) -> (r: Option<SubackReasonCode>)
        ensures
            r == Self::spec_from_byte(byte),
    {
        if byte == 0x00 {
            Some(SubackReasonCode::GrantedQoS0)
        }         else if byte == 0x01 {
            Some(SubackReasonCode::GrantedQoS1)
        }         else if byte == 0x02 {
            Some(SubackReasonCode::GrantedQoS2)
        }         else if byte == 0x80 {
            Some(SubackReasonCode::UnspecifiedError)
        }         else if byte == 0x83 {
            Some(SubackReasonCode::ImplementationSpecificError)
        }         else if byte == 0x87 {
            Some(SubackReasonCode::NotAuthorized)
        }         else if byte == 0x8F {
            Some(SubackReasonCode::TopicFilterInvalid)
        }         else if byte == 0x91 {
            Some(SubackReasonCode::PacketIdentifierInUse)
        }         else if byte == 0x97 {
            Some(SubackReasonCode::QuotaExceeded)
        }         else if byte == 0x9E {
            Some(SubackReasonCode::SharedSubscriptionsNotSupported)
        }         else if byte == 0xA1 {
            Some(SubackReasonCode::SubscriptionIdentifiersNotSupported)
        }         else if byte == 0xA2 {
            Some(SubackReasonCode::WildcardSubscriptionsNotSupported)
        } else {
            None
        }
    }

    /// Every code survives the trip through its byte, and a byte that
    /// names a code is the byte of that code.
    pub proof fn lemma_roundtrip(self, byte: u8)
        ensures
            Self::spec_from_byte(self.spec_to_byte()) == Some(self),
            Self::spec_from_byte(byte) matches Some(c) ==> c.spec_to_byte() == byte,
    {
    }
}

/// The reason code of one entry of an UNSUBACK.
#[derive(Clone, Copy, Debug, PartialEq, Eq, Hash, Structural)]
pub enum UnsubackReasonCode {
    Success,
    NoSubscriptionExisted,
    UnspecifiedError,
    ImplementationSpecificError,
    NotAuthorized,
    TopicFilterInvalid,
    PacketIdentifierInUse,
}

impl UnsubackReasonCode {
    /// The byte of the code on the wire.
    pub open spec fn spec_to_byte(self) -> u8 {
        match self {
            UnsubackReasonCode::Success => 0x00,
            UnsubackReasonCode::NoSubscriptionExisted => 0x11,
            UnsubackReasonCode::UnspecifiedError => 0x80,
            UnsubackReasonCode::ImplementationSpecificError => 0x83,
            UnsubackReasonCode::NotAuthorized => 0x87,
            UnsubackReasonCode::TopicFilterInvalid => 0x8F,
            UnsubackReasonCode::PacketIdentifierInUse => 0x91,
        }
    }

    /// The code with the given byte, where this packet type has one.
    pub open spec fn spec_from_byte(byte: u8) -> Option<UnsubackReasonCode> {
        if byte == 0x00 {
            Some(UnsubackReasonCode::Success)
        }         else if byte == 0x11 {
            Some(UnsubackReasonCode::NoSubscriptionExisted)
        }         else if byte == 0x80 {
            Some(UnsubackReasonCode::UnspecifiedError)
        }         else if byte == 0x83 {
            Some(UnsubackReasonCode::ImplementationSpecificError)
        }         else if byte == 0x87 {
            Some(UnsubackReasonCode::NotAuthorized)
        }         else if byte == 0x8F {
            Some(UnsubackReasonCode::TopicFilterInvalid)
        }         else if byte == 0x91 {
            Some(UnsubackReasonCode::PacketIdentifierInUse)
        } else {
            None
        }
    }

    pub fn to_byte(self) -> (byte: u8)
        ensures
            byte == self.spec_to_byte(),
    {
        match self {
            UnsubackReasonCode::Success => 0x00,
            UnsubackReasonCode::NoSubscriptionExisted => 0x11,
            UnsubackReasonCode::UnspecifiedError => 0x80,
            UnsubackReasonCode::ImplementationSpecificError => 0x83,
            UnsubackReasonCode::NotAuthorized => 0x87,
            UnsubackReasonCode::TopicFilterInvalid => 0x8F,
            UnsubackReasonCode::PacketIdentifierInUse => 0x91,
        }
    }

    pub fn from_byte(byte: u8) -> (r: Option<UnsubackReasonCode>)
        ensures
            r == Self::spec_from_byte(byte),
    {
        if byte == 0x00 {
            Some(UnsubackReasonCode::Success)
        }         else if byte == 0x11 {
            Some(UnsubackReasonCode::NoSubscriptionExisted)
        }         else if byte == 0x80 {
            Some(UnsubackReasonCode::UnspecifiedError)
        }         else if byte == 0x83 {
            Some(UnsubackReasonCode::ImplementationSpecificError)
        }         else if byte == 0x87 {
            Some(UnsubackReasonCode::NotAuthorized)
        }         else if byte == 0x8F {
            Some(UnsubackReasonCode::TopicFilterInvalid)
        }         else if byte == 0x91 {
            Some(UnsubackReasonCode::PacketIdentifierInUse)
        } else {
            None
        }
    }

    /// Every code survives the trip through its byte, and a byte that
    /// names a code is the byte of that code.
    pub proof fn lemma_roundtrip(self, byte: u8)
        ensures
            Self::spec_from_byte(self.spec_to_byte()) == Some(self),
            Self::spec_from_byte(byte) matches Some(c) ==> c.spec_to_byte() == byte,
    {
    }
}

/// The reason code of a DISCONNECT.
#[derive(Clone, Copy, Debug, PartialEq, Eq, Hash, Structural)]
pub enum DisconnectReasonCode {
    NormalDisconnection,
    DisconnectWithWillMessage,
    UnspecifiedError,
    MalformedPacket,
    ProtocolError,
    ImplementationSpecificError,
    NotAuthorized,
    ServerBusy,
    ServerShuttingDown,
    BadAuthenticationMethod,
    KeepAliveTimeout,
    SessionTakenOver,
    TopicFilterInvalid,
    TopicNameInvalid,
    ReceiveMaximumExceeded,
    TopicAliasInvalid,
    PacketTooLarge,
    MessageRateTooHigh,
    QuotaExceeded,
    AdministrativeAction,
    PayloadFormatInvalid,
    RetainNotSupported,
    QoSNotSupported,
    UseAnotherServer,
    ServerMoved,
    SharedSubscriptionsNotSupported,
    ConnectionRateExceeded,
    MaximumConnectTime,
    SubscriptionIdentifiersNotSupported,
    WildcardSubscriptionsNotSupported,
}

impl DisconnectReasonCode {
    /// The byte of the code on the wire.
    pub open spec fn spec_to_byte(self) -> u8 {
        match self {
            DisconnectReasonCode::NormalDisconnection => 0x00,
            DisconnectReasonCode::DisconnectWithWillMessage => 0x04,
            DisconnectReasonCode::UnspecifiedError => 0x80,
            DisconnectReasonCode::MalformedPacket => 0x81,
            DisconnectReasonCode::ProtocolError => 0x82,
            DisconnectReasonCode::ImplementationSpecificError => 0x83,
            DisconnectReasonCode::NotAuthorized => 0x87,
            DisconnectReasonCode::ServerBusy => 0x89,
            DisconnectReasonCode::ServerShuttingDown => 0x8B,
            DisconnectReasonCode::BadAuthenticationMethod => 0x8C,
            DisconnectReasonCode::KeepAliveTimeout => 0x8D,
            DisconnectReasonCode::SessionTakenOver => 0x8E,
            DisconnectReasonCode::TopicFilterInvalid => 0x8F,
            DisconnectReasonCode::TopicNameInvalid => 0x90,
            DisconnectReasonCode::ReceiveMaximumExceeded => 0x93,
            DisconnectReasonCode::TopicAliasInvalid => 0x94,
            DisconnectReasonCode::PacketTooLarge => 0x95,
            DisconnectReasonCode::MessageRateTooHigh => 0x96,
            DisconnectReasonCode::QuotaExceeded => 0x97,
            DisconnectReasonCode::AdministrativeAction => 0x98,
            DisconnectReasonCode::PayloadFormatInvalid => 0x99,
            DisconnectReasonCode::RetainNotSupported => 0x9A,
            DisconnectReasonCode::QoSNotSupported => 0x9B,
            DisconnectReasonCode::UseAnotherServer => 0x9C,
            DisconnectReasonCode::ServerMoved => 0x9D,
            DisconnectReasonCode::SharedSubscriptionsNotSupported => 0x9E,
            DisconnectReasonCode::ConnectionRateExceeded => 0x9F,
            DisconnectReasonCode::MaximumConnectTime => 0xA0,
            DisconnectReasonCode::SubscriptionIdentifiersNotSupported => 0xA1,
            DisconnectReasonCode::WildcardSubscriptionsNotSupported => 0xA2,
        }
    }

    /// The code with the given byte, where this packet type has one.
    pub open spec fn spec_from_byte(byte: u8) -> Option<DisconnectReasonCode> {
        if byte == 0x00 {
            Some(DisconnectReasonCode::NormalDisconnection)
        }         else if byte == 0x04 {
            Some(DisconnectReasonCode::DisconnectWithWillMessage)
        }         else if byte == 0x80 {
            Some(DisconnectReasonCode::UnspecifiedError)
        }         else if byte == 0x81 {
            Some(DisconnectReasonCode::MalformedPacket)
        }         else if byte == 0x82 {
            Some(DisconnectReasonCode::ProtocolError)
        }         else if byte == 0x83 {
            Some(DisconnectReasonCode::ImplementationSpecificError)
        }         else if byte == 0x87 {
            Some(DisconnectReasonCode::NotAuthorized)
        }         else if byte == 0x89 {
            Some(DisconnectReasonCode::ServerBusy)
        }         else if byte == 0x8B {
            Some(DisconnectReasonCode::ServerShuttingDown)
        }         else if byte == 0x8C {
            Some(DisconnectReasonCode::BadAuthenticationMethod)
        }         else if byte == 0x8D {
            Some(DisconnectReasonCode::KeepAliveTimeout)
        }         else if byte == 0x8E {
            Some(DisconnectReasonCode::SessionTakenOver)
        }         else if byte == 0x8F {
            Some(DisconnectReasonCode::TopicFilterInvalid)
        }         else if byte == 0x90 {
            Some(DisconnectReasonCode::TopicNameInvalid)
        }         else if byte == 0x93 {
            Some(DisconnectReasonCode::ReceiveMaximumExceeded)
        }         else if byte == 0x94 {
            Some(DisconnectReasonCode::TopicAliasInvalid)
        }         else if byte == 0x95 {
            Some(DisconnectReasonCode::PacketTooLarge)
        }         else if byte == 0x96 {
            Some(DisconnectReasonCode::MessageRateTooHigh)
        }         else if byte == 0x97 {
            Some(DisconnectReasonCode::QuotaExceeded)
        }         else if byte == 0x98 {
            Some(DisconnectReasonCode::AdministrativeAction)
        }         else if byte == 0x99 {
            Some(DisconnectReasonCode::PayloadFormatInvalid)
        }         else if byte == 0x9A {
            Some(DisconnectReasonCode::RetainNotSupported)
        }         else if byte == 0x9B {
            Some(DisconnectReasonCode::QoSNotSupported)
        }         else if byte == 0x9C {
            Some(DisconnectReasonCode::UseAnotherServer)
        }         else if byte == 0x9D {
            Some(DisconnectReasonCode::ServerMoved)
        }         else if byte == 0x9E {
            Some(DisconnectReasonCode::SharedSubscriptionsNotSupported)
        }         else if byte == 0x9F {
            Some(DisconnectReasonCode::ConnectionRateExceeded)
        }         else if byte == 0xA0 {
            Some(DisconnectReasonCode::MaximumConnectTime)
        }         else if byte == 0xA1 {
            Some(DisconnectReasonCode::SubscriptionIdentifiersNotSupported)
        }         else if byte == 0xA2 {
            Some(DisconnectReasonCode::WildcardSubscriptionsNotSupported)
        } else {
            None
        }
    }

    pub fn to_byte(self) -> (byte: u8)
        ensures
            byte == self.spec_to_byte(),
    {
        match self {
            DisconnectReasonCode::NormalDisconnection => 0x00,
            DisconnectReasonCode::DisconnectWithWillMessage => 0x04,
            DisconnectReasonCode::UnspecifiedError => 0x80,
            DisconnectReasonCode::MalformedPacket => 0x81,
            DisconnectReasonCode::ProtocolError => 0x82,
            DisconnectReasonCode::ImplementationSpecificError => 0x83,
            DisconnectReasonCode::NotAuthorized => 0x87,
            DisconnectReasonCode::ServerBusy => 0x89,
            DisconnectReasonCode::ServerShuttingDown => 0x8B,
            DisconnectReasonCode::BadAuthenticationMethod => 0x8C,
            DisconnectReasonCode::KeepAliveTimeout => 0x8D,
            DisconnectReasonCode::SessionTakenOver => 0x8E,
            DisconnectReasonCode::TopicFilterInvalid => 0x8F,
            DisconnectReasonCode::TopicNameInvalid => 0x90,
            DisconnectReasonCode::ReceiveMaximumExceeded => 0x93,
            DisconnectReasonCode::TopicAliasInvalid => 0x94,
            DisconnectReasonCode::PacketTooLarge => 0x95,
            DisconnectReasonCode::MessageRateTooHigh => 0x96,
            DisconnectReasonCode::QuotaExceeded => 0x97,
            DisconnectReasonCode::AdministrativeAction => 0x98,
            DisconnectReasonCode::PayloadFormatInvalid => 0x99,
            DisconnectReasonCode::RetainNotSupported => 0x9A,
            DisconnectReasonCode::QoSNotSupported => 0x9B,
            DisconnectReasonCode::UseAnotherServer => 0x9C,
            DisconnectReasonCode::ServerMoved => 0x9D,
            DisconnectReasonCode::SharedSubscriptionsNotSupported => 0x9E,
            DisconnectReasonCode::ConnectionRateExceeded => 0x9F,
            DisconnectReasonCode::MaximumConnectTime => 0xA0,
            DisconnectReasonCode::SubscriptionIdentifiersNotSupported => 0xA1,
            DisconnectReasonCode::WildcardSubscriptionsNotSupported => 0xA2,
        }
    }

    pub fn from_byte(byte: u8) -> (r: Option<DisconnectReasonCode>)
        ensures
            r == Self::spec_from_byte(byte),
    {
        if byte == 0x00 {
            Some(DisconnectReasonCode::NormalDisconnection)
        }         else if byte == 0x04 {
            Some(DisconnectReasonCode::DisconnectWithWillMessage)
        }         else if byte == 0x80 {
            Some(DisconnectReasonCode::UnspecifiedError)
        }         else if byte == 0x81 {
            Some(DisconnectReasonCode::MalformedPacket)
        }         else if byte == 0x82 {
            Some(DisconnectReasonCode::ProtocolError)
        }         else if byte == 0x83 {
            Some(DisconnectReasonCode::ImplementationSpecificError)
        }         else if byte == 0x87 {
            Some(DisconnectReasonCode::NotAuthorized)
        }         else if byte == 0x89 {
            Some(DisconnectReasonCode::ServerBusy)
        }         else if byte == 0x8B {
            Some(DisconnectReasonCode::ServerShuttingDown)
        }         else if byte == 0x8C {
            Some(DisconnectReasonCode::BadAuthenticationMethod)
        }         else if byte == 0x8D {
            Some(DisconnectReasonCode::KeepAliveTimeout)
        }         else if byte == 0x8E {
            Some(DisconnectReasonCode::SessionTakenOver)
        }         else if byte == 0x8F {
            Some(DisconnectReasonCode::TopicFilterInvalid)
        }         else if byte == 0x90 {
            Some(DisconnectReasonCode::TopicNameInvalid)
        }         else if byte == 0x93 {
            Some(DisconnectReasonCode::ReceiveMaximumExceeded)
        }         else if byte == 0x94 {
            Some(DisconnectReasonCode::TopicAliasInvalid)
        }         else if byte == 0x95 {
            Some(DisconnectReasonCode::PacketTooLarge)
        }         else if byte == 0x96 {
            Some(DisconnectReasonCode::MessageRateTooHigh)
        }         else if byte == 0x97 {
            Some(DisconnectReasonCode::QuotaExceeded)
        }         else if byte == 0x98 {
            Some(DisconnectReasonCode::AdministrativeAction)
        }         else if byte == 0x99 {
            Some(DisconnectReasonCode::PayloadFormatInvalid)
        }         else if byte == 0x9A {
            Some(DisconnectReasonCode::RetainNotSupported)
        }         else if byte == 0x9B {
            Some(DisconnectReasonCode::QoSNotSupported)
        }         else if byte == 0x9C {
            Some(DisconnectReasonCode::UseAnotherServer)
        }         else if byte == 0x9D {
            Some(DisconnectReasonCode::ServerMoved)
        }         else if byte == 0x9E {
            Some(DisconnectReasonCode::SharedSubscriptionsNotSupported)
        }         else if byte == 0x9F {
            Some(DisconnectReasonCode::ConnectionRateExceeded)
        }         else if byte == 0xA0 {
            Some(DisconnectReasonCode::MaximumConnectTime)
        }         else if byte == 0xA1 {
            Some(DisconnectReasonCode::SubscriptionIdentifiersNotSupported)
        }         else if byte == 0xA2 {
            Some(DisconnectReasonCode::WildcardSubscriptionsNotSupported)
        } else {
            None
        }
    }

    /// Every code survives the trip through its byte, and a byte that
    /// names a code is the byte of that code.
    pub proof fn lemma_roundtrip(self, byte: u8)
        ensures
            Self::spec_from_byte(self.spec_to_byte()) == Some(self),
            Self::spec_from_byte(byte) matches Some(c) ==> c.spec_to_byte() == byte,
    {
    }
}

/// The reason code of an AUTH.
#[derive(Clone, Copy, Debug, PartialEq, Eq, Hash, Structural)]
pub enum AuthReasonCode {
    Success,
    ContinueAuthentication,
    ReAuthenticate,
}

impl AuthReasonCode {
    /// The byte of the code on the wire.
    pub open spec fn spec_to_byte(self) -> u8 {
        match self {
            AuthReasonCode::Success => 0x00,
            AuthReasonCode::ContinueAuthentication => 0x18,
            AuthReasonCode::ReAuthenticate => 0x19,
        }
    }

    /// The code with the given byte, where this packet type has one.
    pub open spec fn spec_from_byte(byte: u8) -> Option<AuthReasonCode> {
        if byte == 0x00 {
            Some(AuthReasonCode::Success)
        }         else if byte == 0x18 {
            Some(AuthReasonCode::ContinueAuthentication)
        }         else if byte == 0x19 {
            Some(AuthReasonCode::ReAuthenticate)
        } else {
            None
        }
    }

    pub fn to_byte(self) -> (byte: u8)
        ensures
            byte == self.spec_to_byte(),
    {
        match self {
            AuthReasonCode::Success => 0x00,
            AuthReasonCode::ContinueAuthentication => 0x18,
            AuthReasonCode::ReAuthenticate => 0x19,
        }
    }

    pub fn from_byte(byte: u8) -> (r: Option<AuthReasonCode>)
        ensures
            r == Self::spec_from_byte(byte),
    {
        if byte == 0x00 {
            Some(AuthReasonCode::Success)
        }         else if byte == 0x18 {
            Some(AuthReasonCode::ContinueAuthentication)
        }         else if byte == 0x19 {
            Some(AuthReasonCode::ReAuthenticate)
        } else {
            None
        }
    }

    /// Every code survives the trip through its byte, and a byte that
    /// names a code is the byte of that code.
    pub proof fn lemma_roundtrip(self, byte: u8)
        ensures
            Self::spec_from_byte(self.spec_to_byte()) == Some(self),
            Self::spec_from_byte(byte) matches Some(c) ==> c.spec_to_byte() == byte,
    {
    }
}

} // verus!
