//! What both versions of the protocol share on the wire: the primitive
//! reads and writes, strings, the fixed header, and the cutting of a stream
//! into packets.

pub mod fixed_header;
pub mod framing;
pub mod integers;
pub mod read;
pub mod roundtrip;
pub mod strings;
pub mod write;
