//! The MQTT 5.0 wire format.

pub mod packets;
pub mod properties;
pub mod property_laws;
pub mod qos;
pub mod reason_code;
pub mod variable_header;
