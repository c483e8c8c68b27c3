//! The entries of a SUBSCRIBE packet.

use vstd::prelude::*;
use crate::v3::qos::MQualityOfService;
use crate::wire::strings::MqttString;

verus! {

/// One entry of a SUBSCRIBE packet, as plain data.
pub struct SubscriptionRequestView {
    pub topic: Seq<char>,
    pub qos: MQualityOfService,
}

/// One entry of a SUBSCRIBE packet: a topic filter and the highest quality
/// of service the client wants for it.
#[derive(Debug, Clone, PartialEq, Eq)]
pub struct MSubscriptionRequest {
    pub topic: MqttString,
    pub qos: MQualityOfService,
}

impl View for MSubscriptionRequest {
    type V = SubscriptionRequestView;

    open spec fn view(&self) -> SubscriptionRequestView {
        SubscriptionRequestView { topic: self.topic@, qos: self.qos }
    }
}

/// The entries of a SUBSCRIBE packet, in the order of the packet.
#[derive(Debug, Clone, PartialEq, Eq)]
pub struct MSubscriptionRequests {
    pub requests: Vec<MSubscriptionRequest>,
}

impl View for MSubscriptionRequests {
    type V = Seq<SubscriptionRequestView>;

    open spec fn view(&self) -> Seq<SubscriptionRequestView> {
        Seq::new(self.requests@.len(), |i: int| self.requests@[i]@)
    }
}

} // verus!
