//! The entries of a SUBACK packet.

use vstd::prelude::*;
use crate::v3::qos::MQualityOfService;

verus! {

/// What the server grants for one requested subscription.
#[derive(Clone, Copy, Debug, PartialEq, Eq, Hash, Structural)]
pub enum MSubscriptionAck {
    MaximumQualityAtMostOnce,
    MaximumQualityAtLeastOnce,
    MaximumQualityExactlyOnce,
    Failure,
}

impl MSubscriptionAck {
    pub open spec fn spec_to_byte(self) -> u8 {
        match self {
            MSubscriptionAck::MaximumQualityAtMostOnce => 0,
            MSubscriptionAck::MaximumQualityAtLeastOnce => 1,
            MSubscriptionAck::MaximumQualityExactlyOnce => 2,
            MSubscriptionAck::Failure => 0x80,
        }
    }

    pub open spec fn spec_from_byte(byte: u8) -> Option<MSubscriptionAck> {
        if byte == 0 {
            Some(MSubscriptionAck::MaximumQualityAtMostOnce)
        } else if byte == 1 {
            Some(MSubscriptionAck::MaximumQualityAtLeastOnce)
        } else if byte == 2 {
            Some(MSubscriptionAck::MaximumQualityExactlyOnce)
        } else if byte == 0x80 {
            Some(MSubscriptionAck::Failure)
        } else {
            None
        }
    }

    /// The grant of a quality of service level.
    pub open spec fn spec_granted(level: MQualityOfService) -> MSubscriptionAck {
        match level {
            MQualityOfService::AtMostOnce => MSubscriptionAck::MaximumQualityAtMostOnce,
            MQualityOfService::AtLeastOnce => MSubscriptionAck::MaximumQualityAtLeastOnce,
            MQualityOfService::ExactlyOnce => MSubscriptionAck::MaximumQualityExactlyOnce,
        }
    }

    pub fn to_byte(self) -> (byte: u8)
        ensures
            byte == self.spec_to_byte(),
    {
        match self {
            MSubscriptionAck::MaximumQualityAtMostOnce => 0,
            MSubscriptionAck::MaximumQualityAtLeastOnce => 1,
            MSubscriptionAck::MaximumQualityExactlyOnce => 2,
            MSubscriptionAck::Failure => 0x80,
        }
    }

    pub fn from_byte(byte: u8) -> (r: Option<MSubscriptionAck>)
        ensures
            r == Self::spec_from_byte(byte),
    {
        if byte == 0 {
            Some(MSubscriptionAck::MaximumQualityAtMostOnce)
        } else if byte == 1 {
            Some(MSubscriptionAck::MaximumQualityAtLeastOnce)
        } else if byte == 2 {
            Some(MSubscriptionAck::MaximumQualityExactlyOnce)
        } else if byte == 0x80 {
            Some(MSubscriptionAck::Failure)
        } else {
            None
        }
    }

    pub fn granted(level: MQualityOfService) -> (r: MSubscriptionAck)
        ensures
            r == Self::spec_granted(level),
    {
        match level {
            MQualityOfService::AtMostOnce => MSubscriptionAck::MaximumQualityAtMostOnce,
            MQualityOfService::AtLeastOnce => MSubscriptionAck::MaximumQualityAtLeastOnce,
            MQualityOfService::ExactlyOnce => MSubscriptionAck::MaximumQualityExactlyOnce,
        }
    }
}

/// Every grant survives the trip through its byte, and a byte that names a
/// grant is the byte of that grant.
pub proof fn lemma_subscription_ack_roundtrip(ack: MSubscriptionAck, byte: u8)
    ensures
        MSubscriptionAck::spec_from_byte(ack.spec_to_byte()) == Some(ack),
        MSubscriptionAck::spec_from_byte(byte) matches Some(a) ==> a.spec_to_byte() == byte,
{
}

} // verus!
