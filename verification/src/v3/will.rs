//! The message a client leaves behind for the case that it vanishes.

use vstd::prelude::*;
use crate::v3::qos::MQualityOfService;
use crate::wire::strings::MqttBytes;
use crate::wire::strings::MqttString;

verus! {

/// A last will, as plain data.
pub struct LastWillView {
    pub topic: Seq<char>,
    pub payload: Seq<u8>,
    pub qos: MQualityOfService,
    pub retain: bool,
}

/// The message that the server publishes when the client goes away without
/// a DISCONNECT.
#[derive(Debug, Clone, PartialEq, Eq)]
pub struct MLastWill {
    pub topic: MqttString,
    pub payload: MqttBytes,
    pub qos: MQualityOfService,
    pub retain: bool,
}

impl View for MLastWill {
    type V = LastWillView;

    open spec fn view(&self) -> LastWillView {
        LastWillView {
            topic: self.topic@,
            payload: self.payload@,
            qos: self.qos,
            retain: self.retain,
        }
    }
}

} // verus!
