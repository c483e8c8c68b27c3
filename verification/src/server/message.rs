//! A message on its way through the broker.

use vstd::prelude::*;
use crate::server::ClientId;
use crate::v3::qos::MQualityOfService;
use crate::v3::will::MLastWill;
use crate::wire::strings::MqttString;
use crate::wire::strings::is_mqtt_string;

verus! {

/// A message on its way through the broker, as plain data.
pub struct MessageView {
    pub author_id: Seq<char>,
    pub payload: Seq<u8>,
    pub topic: Seq<char>,
    pub retain: bool,
    pub qos: MQualityOfService,
}

/// A published message: who sent it, where to, and what it carries.
#[derive(Debug, Clone, PartialEq, Eq)]
pub struct MqttMessage {
    author_id: ClientId,
    payload: Vec<u8>,
    topic: MqttString,
    retain: bool,
    qos: MQualityOfService,
}

impl View for MqttMessage {
    type V = MessageView;

    closed spec fn view(&self) -> MessageView {
        MessageView {
            author_id: self.author_id@,
            payload: self.payload@,
            topic: self.topic@,
            retain: self.retain,
            qos: self.qos,
        }
    }
}

impl MqttMessage {
    pub fn new(
        author_id: ClientId,
        payload: Vec<u8>,
        topic: MqttString,
        retain: bool,
        qos: MQualityOfService,
    ) -> (r: MqttMessage)
        ensures
            r@ == (MessageView {
                author_id: author_id@,
                payload: payload@,
                topic: topic@,
                retain,
                qos,
            }),
    {
        MqttMessage { author_id, payload, topic, retain, qos }
    }

    /// The message that a last will asks for, in the name of its author.
    pub fn from_last_will(will: &MLastWill, author_id: ClientId) -> (r: MqttMessage)
        ensures
            r@ == (MessageView {
                author_id: author_id@,
                payload: will@.payload,
                topic: will@.topic,
                retain: will.retain,
                qos: will.qos,
            }),
    {
        MqttMessage {
            author_id,
            payload: vstd::slice::slice_to_vec(will.payload.as_slice()),
            topic: will.topic.clone(),
            retain: will.retain,
            qos: will.qos,
        }
    }

    /// The topic as it goes on the wire.
    pub fn topic_name(&self) -> (r: &MqttString)
        ensures
            r@ == self@.topic,
    {
        &self.topic
    }

    pub fn author_id(&self) -> (r: &ClientId)
        ensures
            r@ == self@.author_id,
    {
        &self.author_id
    }

    pub fn topic(&self) -> (r: &str)
        ensures
            r@ == self@.topic,
            is_mqtt_string(self@.topic),
    {
        self.topic.as_str()
    }

    pub fn payload(&self) -> (r: &[u8])
        ensures
            r@ == self@.payload,
    {
        self.payload.as_slice()
    }

    pub fn retain(&self) -> (r: bool)
        ensures
            r == self@.retain,
    {
        self.retain
    }

    pub fn qos(&self) -> (r: MQualityOfService)
        ensures
            r == self@.qos,
    {
        self.qos
    }
}

} // verus!
