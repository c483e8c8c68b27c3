//! Variable-length integers on their own: to and from plain byte vectors.

use vstd::prelude::*;
use crate::wire::read::MResult;
use crate::wire::read::Reader;
use crate::wire::read::VARINT_MAX;
use crate::wire::read::spec_take_varint;
use crate::wire::write::MqttWriteError;
use crate::wire::write::VecWriter;
use crate::wire::write::WriteMqttPacket;
use crate::wire::write::spec_encode_varint;
use crate::wire::write::spec_varint_len;

verus! {

/// Number of bytes that the shortest encoding of `value` takes.
pub fn varint_len(value: u32) -> (n: u32)
    ensures
        n == spec_varint_len(value),
{
    if value < 128 {
        1
    } else if value < 16384 {
        2
    } else if value < 2097152 {
        3
    } else {
        4
    }
}

/// The shortest encoding of `value`, or `Invariant` where `value` is above
/// `VARINT_MAX`.
pub fn encode_varint(value: u32) -> (r: Result<Vec<u8>, MqttWriteError>)
    ensures
        match r {
            Ok(bytes) => value <= VARINT_MAX && bytes@ == spec_encode_varint(value),
            Err(e) => value > VARINT_MAX && e == MqttWriteError::Invariant,
        },
{
    if value > VARINT_MAX {
        return Err(MqttWriteError::Invariant);
    }
    let mut writer = VecWriter::new();
    match writer.write_varint(value) {
        Ok(()) => {
            proof {
                assert(writer.buffer@ =~= spec_encode_varint(value));
            }
            Ok(writer.buffer)
        },
        Err(e) => {
            proof {
                assert(false);
            }
            Err(e)
        },
    }
}

/// Decodes the variable-length integer at the start of `bytes` and says how
/// many bytes it took.
pub fn decode_varint(bytes: &[u8]) -> (r: MResult<(u32, usize)>)
    ensures
        match spec_take_varint(bytes@) {
            Ok((value, rest)) => r == Ok::<(u32, usize), crate::wire::read::DecodeError>(
                (value, (bytes@.len() - rest.len()) as usize),
            ),
            Err(e) => r == Err::<(u32, usize), crate::wire::read::DecodeError>(e),
        },
{
    let mut reader = Reader::new(bytes);
    let value: u32 = reader.take_varint()?;
    Ok((value, bytes.len() - reader.len()))
}

} // verus!
