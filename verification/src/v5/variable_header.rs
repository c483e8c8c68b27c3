//! Values that stand in the variable header of several packets.

use vstd::prelude::*;

verus! {

/// The identifier that ties the packets of one exchange together.
#[derive(Clone, Copy, Debug, PartialEq, Eq, Hash, Structural)]
pub struct PacketIdentifier(pub u16);

impl PacketIdentifier {
    /// Number of bytes of the identifier on the wire.
    pub fn binary_size(&self) -> (n: u32)
        ensures
            n == 2,
    {
        2
    }
}

} // verus!
