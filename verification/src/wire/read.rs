//! The decoder surface: a cursor over borrowed bytes and the primitive reads
//! every packet decoder is built from.

use vstd::prelude::*;
use vstd::slice::slice_subrange;
use vstd::slice::slice_to_vec;

verus! {

/// Why a packet was rejected as malformed.
#[derive(Clone, Copy, Debug, PartialEq, Eq, Structural)]
pub enum MalformedReason {
    /// The packet type nibble is zero.
    ReservedPacketType,
    /// The packet type is not defined for this protocol version.
    UnknownPacketType,
    /// A property identifier that the protocol does not define.
    UnknownProperty,
    /// A reason code that is not legal for the packet.
    UnknownReasonCode,
    /// A field holds a value outside its range.
    InvalidValue,
    /// Reserved bits that must be zero are set.
    ReservedBitsSet,
    /// The body holds bytes after its last field.
    TrailingBytes,
    /// The protocol name or level of a CONNECT is not the expected one.
    UnsupportedProtocol,
    /// A field runs past the end of the packet.
    TruncatedField,
}

/// Which protocol rule a well-formed packet breaks.
#[derive(Clone, Copy, Debug, PartialEq, Eq, Structural)]
pub enum ProtocolReason {
    /// A property that may appear once appears twice.
    DuplicateProperty,
    /// A property that is not legal in the enclosing packet.
    PropertyNotAllowed,
    /// A packet identifier of zero.
    ZeroPacketIdentifier,
    /// A SUBSCRIBE, UNSUBSCRIBE, SUBACK or UNSUBACK without entries.
    EmptyPayload,
    /// A subscription identifier of zero.
    ZeroSubscriptionIdentifier,
    /// A topic name that holds a wildcard.
    WildcardInTopicName,
    /// A CONNECT whose flags contradict each other.
    InconsistentConnectFlags,
}

/// The ways decoding can fail. Only `Incomplete` is recoverable: the caller
/// waits for more bytes. Every other error is fatal for the connection.
#[derive(Clone, Copy, Debug, PartialEq, Eq, Structural)]
pub enum DecodeError {
    Incomplete,
    MalformedPacket(MalformedReason),
    ProtocolError(ProtocolReason),
    InvalidUtf8,
    InvalidVarInt,
    InvalidFixedHeaderFlags,
    PacketTooLarge,
}

/// The result of a decoder.
pub type MResult<T> = Result<T, DecodeError>;

/// The error of a decoder that works on a whole packet or block: running
/// out of bytes there means that a field is cut short, not that more bytes
/// may come.
pub open spec fn spec_bounded(e: DecodeError) -> DecodeError {
    if e == DecodeError::Incomplete {
        DecodeError::MalformedPacket(MalformedReason::TruncatedField)
    } else {
        e
    }
}

pub fn bounded(e: DecodeError) -> (r: DecodeError)
    ensures
        r == spec_bounded(e),
{
    match e {
        DecodeError::Incomplete => DecodeError::MalformedPacket(MalformedReason::TruncatedField),
        other => other,
    }
}

/// What a decoder owes: on success the expected value and rest, on failure
/// the expected error with the input untouched.
pub open spec fn reads<T>(
    expected: Result<(T, Seq<u8>), DecodeError>,
    before: Seq<u8>,
    got: Result<T, DecodeError>,
    after: Seq<u8>,
) -> bool {
    match expected {
        Ok((v, rest)) => got == Ok::<T, DecodeError>(v) && after == rest,
        Err(e) => got == Err::<T, DecodeError>(e) && after == before,
    }
}

/// As `reads`, for a decoder whose result is compared by its view.
pub open spec fn reads_view<T: View>(
    expected: Result<(T::V, Seq<u8>), DecodeError>,
    before: Seq<u8>,
    got: Result<T, DecodeError>,
    after: Seq<u8>,
) -> bool {
    match expected {
        Ok((v, rest)) => got is Ok && got->Ok_0@ == v && after == rest,
        Err(e) => got == Err::<T, DecodeError>(e) && after == before,
    }
}

pub open spec fn spec_take_u8(s: Seq<u8>) -> Result<(u8, Seq<u8>), DecodeError> {
    if s.len() >= 1 {
        Ok((s[0], s.skip(1)))
    } else {
        Err(DecodeError::Incomplete)
    }
}

/// The big-endian value of two bytes.
pub open spec fn spec_u16_be(b0: u8, b1: u8) -> u16 {
    (b0 as int * 256 + b1 as int) as u16
}

/// The big-endian value of four bytes.
pub open spec fn spec_u32_be(b0: u8, b1: u8, b2: u8, b3: u8) -> u32 {
    (b0 as int * 16777216 + b1 as int * 65536 + b2 as int * 256 + b3 as int) as u32
}

pub open spec fn spec_take_u16_be(s: Seq<u8>) -> Result<(u16, Seq<u8>), DecodeError> {
    if s.len() >= 2 {
        Ok((spec_u16_be(s[0], s[1]), s.skip(2)))
    } else {
        Err(DecodeError::Incomplete)
    }
}

pub open spec fn spec_take_u32_be(s: Seq<u8>) -> Result<(u32, Seq<u8>), DecodeError> {
    if s.len() >= 4 {
        Ok((spec_u32_be(s[0], s[1], s[2], s[3]), s.skip(4)))
    } else {
        Err(DecodeError::Incomplete)
    }
}

/// The next `n` bytes.
pub open spec fn spec_take_bytes(s: Seq<u8>, n: nat) -> Result<(Seq<u8>, Seq<u8>), DecodeError> {
    if s.len() >= n {
        Ok((s.take(n as int), s.skip(n as int)))
    } else {
        Err(DecodeError::Incomplete)
    }
}

/// A two-byte length, then that many bytes.
pub open spec fn spec_take_binary(s: Seq<u8>) -> Result<(Seq<u8>, Seq<u8>), DecodeError> {
    match spec_take_u16_be(s) {
        Ok((n, rest)) => spec_take_bytes(rest, n as nat),
        Err(e) => Err(e),
    }
}

/// Largest value of a variable-length integer.
pub const VARINT_MAX: u32 = 268_435_455;

/// A variable-length integer: up to four bytes, seven payload bits each, low
/// group first, the high bit of a byte saying that another byte follows.
/// Encodings longer than needed are accepted. A fourth byte with its high bit
/// set, or input that ends inside the integer, is an error.
pub open spec fn spec_take_varint(s: Seq<u8>) -> Result<(u32, Seq<u8>), DecodeError> {
    if s.len() >= 1 && s[0] < 128 {
        Ok((s[0] as u32, s.skip(1)))
    } else if s.len() >= 2 && s[1] < 128 {
        Ok((((s[0] - 128) + 128 * s[1]) as u32, s.skip(2)))
    } else if s.len() >= 3 && s[2] < 128 {
        Ok((((s[0] - 128) + 128 * (s[1] - 128) + 16384 * s[2]) as u32, s.skip(3)))
    } else if s.len() >= 4 && s[3] < 128 {
        Ok(
            (
                ((s[0] - 128) + 128 * (s[1] - 128) + 16384 * (s[2] - 128) + 2097152 * s[3]) as u32,
                s.skip(4),
            ),
        )
    } else {
        Err(DecodeError::InvalidVarInt)
    }
}

/// A cursor over borrowed input. Its view is the bytes not yet consumed.
#[derive(Clone, Copy, Debug)]
pub struct Reader<'a> {
    input: &'a [u8],
}

impl<'a> View for Reader<'a> {
    type V = Seq<u8>;

    closed spec fn view(&self) -> Seq<u8> {
        self.input@
    }
}

impl<'a> Reader<'a> {
    pub fn new(input: &'a [u8]) -> (r: Self)
        ensures
            r@ == input@,
    {
        Reader { input }
    }

    /// Number of bytes left.
    pub fn len(&self) -> (n: usize)
        ensures
            n == self@.len(),
    {
        self.input.len()
    }

    pub fn is_empty(&self) -> (b: bool)
        ensures
            b == (self@.len() == 0),
    {
        self.input.len() == 0
    }

    /// The bytes left, without consuming them.
    pub fn remaining(&self) -> (bytes: &'a [u8])
        ensures
            bytes@ == self@,
    {
        self.input
    }

    /// The byte at `index` of what is left, without consuming it.
    pub fn peek(&self, index: usize) -> (b: Option<u8>)
        ensures
            b == if index < self@.len() { Some(self@[index as int]) } else { None },
    {
        if index < self.input.len() {
            Some(self.input[index])
        } else {
            None
        }
    }

    pub fn take_u8(&mut self) -> (r: MResult<u8>)
        ensures
            reads(spec_take_u8(old(self)@), old(self)@, r, final(self)@),
    {
        let n: usize = self.input.len();
        if n < 1 {
            return Err(DecodeError::Incomplete);
        }
        let b: u8 = self.input[0];
        self.input = slice_subrange(self.input, 1, n);
        Ok(b)
    }

    pub fn take_u16_be(&mut self) -> (r: MResult<u16>)
        ensures
            reads(spec_take_u16_be(old(self)@), old(self)@, r, final(self)@),
    {
        let n: usize = self.input.len();
        if n < 2 {
            return Err(DecodeError::Incomplete);
        }
        let v: u16 = (self.input[0] as u16) * 256 + (self.input[1] as u16);
        self.input = slice_subrange(self.input, 2, n);
        Ok(v)
    }

    pub fn take_u32_be(&mut self) -> (r: MResult<u32>)
        ensures
            reads(spec_take_u32_be(old(self)@), old(self)@, r, final(self)@),
    {
        let n: usize = self.input.len();
        if n < 4 {
            return Err(DecodeError::Incomplete);
        }
        let v: u32 = (self.input[0] as u32) * 16777216 + (self.input[1] as u32) * 65536 + (
        self.input[2] as u32) * 256 + (self.input[3] as u32);
        self.input = slice_subrange(self.input, 4, n);
        Ok(v)
    }

    pub fn take_varint(&mut self) -> (r: MResult<u32>)
        ensures
            reads(spec_take_varint(old(self)@), old(self)@, r, final(self)@),
            r matches Ok(v) ==> v <= VARINT_MAX,
    {
        let n: usize = self.input.len();
        let mut value: u32 = 0;
        let mut scale: u32 = 1;
        let mut i: usize = 0;
        while i < 4 && i < n
            invariant
                i <= 4,
                i <= n,
                n == self.input@.len(),
                self.input@ == old(self)@,
                forall|j: int| 0 <= j < i ==> self.input@[j] >= 128,
                i == 0 ==> scale == 1 && value == 0,
                i == 1 ==> scale == 128 && value == self.input@[0] - 128,
                i == 2 ==> scale == 16384 && value == (self.input@[0] - 128) + 128 * (
                self.input@[1] - 128),
                i == 3 ==> scale == 2097152 && value == (self.input@[0] - 128) + 128 * (
                self.input@[1] - 128) + 16384 * (self.input@[2] - 128),
                i == 4 ==> scale == 268435456,
            decreases 4 - i,
        {
            let b: u8 = self.input[i];
            if b < 128 {
                let v: u32 = value + scale * (b as u32);
                self.input = slice_subrange(self.input, i + 1, n);
                return Ok(v);
            }
            value = value + scale * ((b - 128) as u32);
            scale = scale * 128;
            i = i + 1;
        }
        Err(DecodeError::InvalidVarInt)
    }

    /// The next `n` bytes, borrowed from the input.
    pub fn take_bytes(&mut self, n: usize) -> (r: MResult<&'a [u8]>)
        ensures
            reads_view(spec_take_bytes(old(self)@, n as nat), old(self)@, r, final(self)@),
    {
        let len: usize = self.input.len();
        if len < n {
            return Err(DecodeError::Incomplete);
        }
        let bytes = slice_subrange(self.input, 0, n);
        self.input = slice_subrange(self.input, n, len);
        Ok(bytes)
    }

    /// A two-byte length, then that many bytes, borrowed from the input.
    pub fn take_binary(&mut self) -> (r: MResult<&'a [u8]>)
        ensures
            reads_view(spec_take_binary(old(self)@), old(self)@, r, final(self)@),
    {
        let mut cur = *self;
        let n: u16 = cur.take_u16_be()?;
        let bytes = cur.take_bytes(n as usize)?;
        *self = cur;
        Ok(bytes)
    }

    /// A cursor over the next `n` bytes, which this cursor skips.
    pub fn take_reader(&mut self, n: usize) -> (r: MResult<Reader<'a>>)
        ensures
            reads_view(spec_take_bytes(old(self)@, n as nat), old(self)@, r, final(self)@),
    {
        let bytes = self.take_bytes(n)?;
        Ok(Reader { input: bytes })
    }

    /// Everything that is left, copied out; the cursor ends up empty.
    pub fn take_rest(&mut self) -> (bytes: Vec<u8>)
        ensures
            bytes@ == old(self)@,
            final(self)@.len() == 0,
    {
        let len: usize = self.input.len();
        let bytes = slice_to_vec(self.input);
        self.input = slice_subrange(self.input, len, len);
        bytes
    }
}

} // verus!
