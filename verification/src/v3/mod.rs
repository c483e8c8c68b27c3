//! The MQTT 3.1.1 wire format.

pub mod connect_return;
pub mod packet;
pub mod qos;
pub mod roundtrip;
pub mod subscription_acks;
pub mod subscription_request;
pub mod will;
pub mod write;
