//! An MQTT library: the wire codec for MQTT 3.1.1 and 5.0 packets and the
//! dispatch core of an in-process broker (subscription trie, session table,
//! per-connection routing decisions), together with the connect handshake of
//! a client.

pub mod client;
pub mod server;
pub mod v3;
pub mod v5;
pub mod wire;
