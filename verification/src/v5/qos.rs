//! Quality of service levels.

use vstd::prelude::*;

verus! {

/// How hard the protocol tries to deliver a message.
#[derive(Clone, Copy, Debug, PartialEq, Eq, Hash, Structural)]
pub enum QualityOfService {
    AtMostOnce,
    AtLeastOnce,
    ExactlyOnce,
}

impl QualityOfService {
    /// The two-bit wire value of the level.
    pub open spec fn spec_to_byte(self) -> u8 {
        match self {
            QualityOfService::AtMostOnce => 0,
            QualityOfService::AtLeastOnce => 1,
            QualityOfService::ExactlyOnce => 2,
        }
    }

    pub open spec fn spec_from_byte(byte: u8) -> Option<QualityOfService> {
        if byte == 0 {
            Some(QualityOfService::AtMostOnce)
        } else if byte == 1 {
            Some(QualityOfService::AtLeastOnce)
        } else if byte == 2 {
            Some(QualityOfService::ExactlyOnce)
        } else {
            None
        }
    }

    pub fn to_byte(self) -> (byte: u8)
        ensures
            byte == self.spec_to_byte(),
            byte <= 2,
    {
        match self {
            QualityOfService::AtMostOnce => 0,
            QualityOfService::AtLeastOnce => 1,
            QualityOfService::ExactlyOnce => 2,
        }
    }

    /// The level with wire value `byte`; the value 3 is reserved.
    pub fn from_byte(byte: u8) -> (level: Option<QualityOfService>)
        ensures
            level == Self::spec_from_byte(byte),
    {
        if byte == 0 {
            Some(QualityOfService::AtMostOnce)
        } else if byte == 1 {
            Some(QualityOfService::AtLeastOnce)
        } else if byte == 2 {
            Some(QualityOfService::ExactlyOnce)
        } else {
            None
        }
    }

    /// Every level survives the trip through its wire value, and a value
    /// that names a level is the value of that level.
    pub proof fn lemma_roundtrip(self, byte: u8)
        ensures
            Self::spec_from_byte(self.spec_to_byte()) == Some(self),
            Self::spec_from_byte(byte) matches Some(q) ==> q.spec_to_byte() == byte,
    {
    }
}

/// The highest quality of service that a server offers, where it does not
/// offer all of them.
#[derive(Clone, Copy, Debug, PartialEq, Eq, Hash, Structural)]
pub enum MaximumQualityOfService {
    AtMostOnce,
    AtLeastOnce,
}

impl MaximumQualityOfService {
    pub open spec fn spec_from_byte(byte: u8) -> Option<MaximumQualityOfService> {
        if byte == 0 {
            Some(MaximumQualityOfService::AtMostOnce)
        } else if byte == 1 {
            Some(MaximumQualityOfService::AtLeastOnce)
        } else {
            None
        }
    }

    pub fn from_byte(byte: u8) -> (level: Option<MaximumQualityOfService>)
        ensures
            level == Self::spec_from_byte(byte),
    {
        if byte == 0 {
            Some(MaximumQualityOfService::AtMostOnce)
        } else if byte == 1 {
            Some(MaximumQualityOfService::AtLeastOnce)
        } else {
            None
        }
    }
}

} // verus!
