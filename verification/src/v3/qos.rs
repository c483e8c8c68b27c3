//! Quality of service levels.

use vstd::prelude::*;

verus! {

/// How hard the protocol tries to deliver a message.
#[derive(Clone, Copy, Debug, PartialEq, Eq, Hash, Structural)]
pub enum MQualityOfService {
    /// At most once: fire and forget.
    AtMostOnce,
    /// At least once: acknowledged delivery.
    AtLeastOnce,
    /// Exactly once: assured delivery.
    ExactlyOnce,
}

impl MQualityOfService {
    /// The two-bit wire value of the level.
    pub open spec fn spec_to_byte(self) -> u8 {
        match self {
            MQualityOfService::AtMostOnce => 0,
            MQualityOfService::AtLeastOnce => 1,
            MQualityOfService::ExactlyOnce => 2,
        }
    }

    pub open spec fn spec_from_byte(byte: u8) -> Option<MQualityOfService> {
        if byte == 0 {
            Some(MQualityOfService::AtMostOnce)
        } else if byte == 1 {
            Some(MQualityOfService::AtLeastOnce)
        } else if byte == 2 {
            Some(MQualityOfService::ExactlyOnce)
        } else {
            None
        }
    }

    pub fn to_byte(self) -> (byte: u8)
        ensures
            byte == self.spec_to_byte(),
            byte <= 2,
    {
        match self {
            MQualityOfService::AtMostOnce => 0,
            MQualityOfService::AtLeastOnce => 1,
            MQualityOfService::ExactlyOnce => 2,
        }
    }

    /// The level with wire value `byte`; the value 3 is reserved.
    pub fn from_byte(byte: u8) -> (level: Option<MQualityOfService>)
        ensures
            level == Self::spec_from_byte(byte),
            level is Some <==> byte <= 2,
    {
        if byte == 0 {
            Some(MQualityOfService::AtMostOnce)
        } else if byte == 1 {
            Some(MQualityOfService::AtLeastOnce)
        } else if byte == 2 {
            Some(MQualityOfService::ExactlyOnce)
        } else {
            None
        }
    }

    /// The lower of two levels.
    pub fn min(self, other: MQualityOfService) -> (level: MQualityOfService)
        ensures
            level.spec_to_byte() == if self.spec_to_byte() <= other.spec_to_byte() {
                self.spec_to_byte()
            } else {
                other.spec_to_byte()
            },
            level == self || level == other,
    {
        if self.to_byte() <= other.to_byte() {
            self
        } else {
            other
        }
    }
}

/// Every level survives the trip through its wire value.
pub proof fn lemma_qos_roundtrip(level: MQualityOfService)
    ensures
        MQualityOfService::spec_from_byte(level.spec_to_byte()) == Some(level),
{
}

} // verus!
