//! The PINGRESP packet.

use vstd::prelude::*;
use crate::wire::read::DecodeError;
use crate::wire::read::MResult;
use crate::wire::read::MalformedReason;
use crate::wire::read::Reader;

verus! {

/// The answer of a server to a PINGREQ.
#[derive(Clone, Copy, Debug, PartialEq, Eq, Structural)]
pub struct MPingresp;

/// The body of a PINGRESP is empty.
pub open spec fn spec_parse_pingresp(body: Seq<u8>) -> Result<MPingresp, DecodeError> {
    if body.len() == 0 {
        Ok(MPingresp)
    } else {
        Err(DecodeError::MalformedPacket(MalformedReason::TrailingBytes))
    }
}

impl MPingresp {
    /// Decodes the body of a PINGRESP, which must be empty.
    pub fn parse(input: &mut Reader<'_>) -> (r: MResult<MPingresp>)
        ensures
            r == spec_parse_pingresp(old(input)@),
            final(input)@ == old(input)@,
    {
        if input.is_empty() {
            Ok(MPingresp)
        } else {
            Err(DecodeError::MalformedPacket(MalformedReason::TrailingBytes))
        }
    }

    /// Number of bytes of the body.
    pub fn binary_size(&self) -> (n: u32)
        ensures
            n == 0,
    {
        0
    }
}

} // verus!
