//! The PINGREQ packet.

use vstd::prelude::*;
use crate::wire::read::DecodeError;
use crate::wire::read::MResult;
use crate::wire::read::MalformedReason;
use crate::wire::read::Reader;

verus! {

/// The question of a client whether the server is still there.
#[derive(Clone, Copy, Debug, PartialEq, Eq, Structural)]
pub struct MPingreq;

/// The body of a PINGREQ is empty.
pub open spec fn spec_parse_pingreq(body: Seq<u8>) -> Result<MPingreq, DecodeError> {
    if body.len() == 0 {
        Ok(MPingreq)
    } else {
        Err(DecodeError::MalformedPacket(MalformedReason::TrailingBytes))
    }
}

impl MPingreq {
    /// Decodes the body of a PINGREQ, which must be empty.
    pub fn parse(input: &mut Reader<'_>) -> (r: MResult<MPingreq>)
        ensures
            r == spec_parse_pingreq(old(input)@),
            final(input)@ == old(input)@,
    {
        if input.is_empty() {
            Ok(MPingreq)
        } else {
            Err(DecodeError::MalformedPacket(MalformedReason::TrailingBytes))
        }
    }

    /// Number of bytes of the body.
    pub fn binary_size(&self) -> (n: u32)
        ensures
            n == 0,
    {
        0
    }
}

} // verus!
