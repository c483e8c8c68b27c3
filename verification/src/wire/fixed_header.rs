//! The fixed header that starts every packet: the packet type, four flag
//! bits, and the length of what follows.

use vstd::prelude::*;
use crate::wire::read::DecodeError;
use crate::wire::read::MResult;
use crate::wire::read::MalformedReason;
use crate::wire::read::Reader;
use crate::wire::read::VARINT_MAX;
use crate::wire::read::reads;
use crate::wire::read::spec_take_varint;
use crate::wire::write::MqttWriteError;
use crate::wire::write::WResult;
use crate::wire::write::WriteMqttPacket;
use crate::wire::write::spec_encode_varint;
use crate::wire::write::write_outcome;

verus! {

/// The kinds of control packets.
#[derive(Clone, Copy, Debug, PartialEq, Eq, Hash, Structural)]
pub enum PacketType {
    Connect,
    Connack,
    Publish,
    Puback,
    Pubrec,
    Pubrel,
    Pubcomp,
    Subscribe,
    Suback,
    Unsubscribe,
    Unsuback,
    Pingreq,
    Pingresp,
    Disconnect,
    Auth,
}

impl PacketType {
    /// The value of the type in the high four bits of the first byte.
    pub open spec fn spec_code(self) -> u8 {
        match self {
            PacketType::Connect => 1,
            PacketType::Connack => 2,
            PacketType::Publish => 3,
            PacketType::Puback => 4,
            PacketType::Pubrec => 5,
            PacketType::Pubrel => 6,
            PacketType::Pubcomp => 7,
            PacketType::Subscribe => 8,
            PacketType::Suback => 9,
            PacketType::Unsubscribe => 10,
            PacketType::Unsuback => 11,
            PacketType::Pingreq => 12,
            PacketType::Pingresp => 13,
            PacketType::Disconnect => 14,
            PacketType::Auth => 15,
        }
    }

    /// The type with the given value; zero is reserved.
    pub open spec fn spec_from_code(code: u8) -> Option<PacketType> {
        if code == 1 {
            Some(PacketType::Connect)
        } else if code == 2 {
            Some(PacketType::Connack)
        } else if code == 3 {
            Some(PacketType::Publish)
        } else if code == 4 {
            Some(PacketType::Puback)
        } else if code == 5 {
            Some(PacketType::Pubrec)
        } else if code == 6 {
            Some(PacketType::Pubrel)
        } else if code == 7 {
            Some(PacketType::Pubcomp)
        } else if code == 8 {
            Some(PacketType::Subscribe)
        } else if code == 9 {
            Some(PacketType::Suback)
        } else if code == 10 {
            Some(PacketType::Unsubscribe)
        } else if code == 11 {
            Some(PacketType::Unsuback)
        } else if code == 12 {
            Some(PacketType::Pingreq)
        } else if code == 13 {
            Some(PacketType::Pingresp)
        } else if code == 14 {
            Some(PacketType::Disconnect)
        } else if code == 15 {
            Some(PacketType::Auth)
        } else {
            None
        }
    }

    pub fn code(self) -> (code: u8)
        ensures
            code == self.spec_code(),
            1 <= code <= 15,
    {
        match self {
            PacketType::Connect => 1,
            PacketType::Connack => 2,
            PacketType::Publish => 3,
            PacketType::Puback => 4,
            PacketType::Pubrec => 5,
            PacketType::Pubrel => 6,
            PacketType::Pubcomp => 7,
            PacketType::Subscribe => 8,
            PacketType::Suback => 9,
            PacketType::Unsubscribe => 10,
            PacketType::Unsuback => 11,
            PacketType::Pingreq => 12,
            PacketType::Pingresp => 13,
            PacketType::Disconnect => 14,
            PacketType::Auth => 15,
        }
    }

    pub fn from_code(code: u8) -> (r: Option<PacketType>)
        ensures
            r == Self::spec_from_code(code),
            r is Some <==> 1 <= code <= 15,
    {
        if code == 1 {
            Some(PacketType::Connect)
        } else if code == 2 {
            Some(PacketType::Connack)
        } else if code == 3 {
            Some(PacketType::Publish)
        } else if code == 4 {
            Some(PacketType::Puback)
        } else if code == 5 {
            Some(PacketType::Pubrec)
        } else if code == 6 {
            Some(PacketType::Pubrel)
        } else if code == 7 {
            Some(PacketType::Pubcomp)
        } else if code == 8 {
            Some(PacketType::Subscribe)
        } else if code == 9 {
            Some(PacketType::Suback)
        } else if code == 10 {
            Some(PacketType::Unsubscribe)
        } else if code == 11 {
            Some(PacketType::Unsuback)
        } else if code == 12 {
            Some(PacketType::Pingreq)
        } else if code == 13 {
            Some(PacketType::Pingresp)
        } else if code == 14 {
            Some(PacketType::Disconnect)
        } else if code == 15 {
            Some(PacketType::Auth)
        } else {
            None
        }
    }

    /// Whether `flags` may stand beside this type. PUBLISH carries DUP, the
    /// quality of service and RETAIN there, and only the level 3 is refused;
    /// PUBREL, SUBSCRIBE and UNSUBSCRIBE must carry 2; every other type 0.
    pub open spec fn spec_flags_allowed(self, flags: u8) -> bool {
        match self {
            PacketType::Publish => flags < 16 && (flags / 2) % 4 != 3,
            PacketType::Pubrel | PacketType::Subscribe | PacketType::Unsubscribe => flags == 2,
            _ => flags == 0,
        }
    }

    pub fn flags_allowed(self, flags: u8) -> (b: bool)
        ensures
            b == self.spec_flags_allowed(flags),
    {
        match self {
            PacketType::Publish => flags < 16 && (flags / 2) % 4 != 3,
            PacketType::Pubrel | PacketType::Subscribe | PacketType::Unsubscribe => flags == 2,
            _ => flags == 0,
        }
    }
}

/// Every packet type survives the trip through its value.
pub proof fn lemma_packet_type_roundtrip(packet_type: PacketType)
    ensures
        PacketType::spec_from_code(packet_type.spec_code()) == Some(packet_type),
{
}

/// The fixed header of a packet.
#[derive(Clone, Copy, Debug, PartialEq, Eq, Structural)]
pub struct FixedHeader {
    pub packet_type: PacketType,
    /// The low four bits of the first byte.
    pub flags: u8,
    /// Number of bytes that follow the fixed header.
    pub remaining_length: u32,
}

/// The length field of a fixed header. Input that ends inside the field is
/// incomplete: more bytes may still come.
pub open spec fn spec_take_length(s: Seq<u8>) -> Result<(u32, Seq<u8>), DecodeError> {
    if s.len() < 4 && (forall|i: int| 0 <= i < s.len() ==> s[i] >= 128) {
        Err(DecodeError::Incomplete)
    } else {
        spec_take_varint(s)
    }
}

pub open spec fn spec_take_fixed_header(s: Seq<u8>) -> Result<(FixedHeader, Seq<u8>), DecodeError> {
    if s.len() == 0 {
        Err(DecodeError::Incomplete)
    } else {
        match PacketType::spec_from_code(s[0] / 16) {
            None => Err(DecodeError::MalformedPacket(MalformedReason::ReservedPacketType)),
            Some(packet_type) => if !packet_type.spec_flags_allowed(s[0] % 16) {
                Err(DecodeError::InvalidFixedHeaderFlags)
            } else {
                match spec_take_length(s.skip(1)) {
                    Err(e) => Err(e),
                    Ok((remaining_length, rest)) => Ok(
                        (FixedHeader { packet_type, flags: s[0] % 16, remaining_length }, rest),
                    ),
                }
            },
        }
    }
}

/// A header is well-formed when its flags fit its type and its length fits
/// the length field.
pub open spec fn fixed_header_wf(header: FixedHeader) -> bool {
    header.packet_type.spec_flags_allowed(header.flags) && header.remaining_length <= VARINT_MAX
}

pub open spec fn spec_encode_fixed_header(header: FixedHeader) -> Seq<u8> {
    seq![(header.packet_type.spec_code() * 16 + header.flags) as u8] + spec_encode_varint(
        header.remaining_length,
    )
}

impl FixedHeader {
    pub fn parse(input: &mut Reader<'_>) -> (r: MResult<FixedHeader>)
        ensures
            reads(spec_take_fixed_header(old(input)@), old(input)@, r, final(input)@),
            r matches Ok(h) ==> fixed_header_wf(h),
    {
        let mut cur = *input;
        let first: u8 = cur.take_u8()?;
        let packet_type = match PacketType::from_code(first / 16) {
            None => {
                return Err(DecodeError::MalformedPacket(MalformedReason::ReservedPacketType));
            },
            Some(t) => t,
        };
        let flags: u8 = first % 16;
        if !packet_type.flags_allowed(flags) {
            return Err(DecodeError::InvalidFixedHeaderFlags);
        }
        let n: usize = cur.len();
        let truncated = n < 4 && (n < 1 || cur.peek(0).unwrap() >= 128) && (n < 2 || cur.peek(
            1,
        ).unwrap() >= 128) && (n < 3 || cur.peek(2).unwrap() >= 128);
        if truncated {
            return Err(DecodeError::Incomplete);
        }
        proof {
            if n < 4 {
                assert(!(forall|i: int| 0 <= i < cur@.len() ==> cur@[i] >= 128));
            }
        }
        let remaining_length: u32 = cur.take_varint()?;
        *input = cur;
        Ok(FixedHeader { packet_type, flags, remaining_length })
    }

    /// Writes the header. A header that is not well-formed is refused
    /// before anything is written.
    pub fn write<W: WriteMqttPacket>(&self, buffer: &mut W) -> (r: WResult<W>)
        ensures
            !fixed_header_wf(*self) ==> r is Err && *final(buffer) == *old(buffer),
            fixed_header_wf(*self) ==> write_outcome(
                old(buffer).state(),
                final(buffer).state(),
                spec_encode_fixed_header(*self),
                r is Ok,
            ),
    {
        if !self.packet_type.flags_allowed(self.flags) || self.remaining_length > VARINT_MAX {
            return Err(W::Error::from(MqttWriteError::Invariant));
        }
        let ghost before = buffer.state().written;
        buffer.write_byte(self.packet_type.code() * 16 + self.flags)?;
        let r = buffer.write_varint(self.remaining_length);
        proof {
            if r is Ok {
                assert(buffer.state().written =~= before + spec_encode_fixed_header(*self));
            }
        }
        r
    }

    /// Number of bytes of the encoded header.
    pub fn binary_size(&self) -> (n: u32)
        ensures
            n == 1 + crate::wire::write::spec_varint_len(self.remaining_length),
    {
        1 + crate::wire::integers::varint_len(self.remaining_length)
    }
}

/// An encoded well-formed header followed by anything decodes to the same
/// header and leaves the rest.
pub proof fn lemma_fixed_header_decode_encode(header: FixedHeader, tail: Seq<u8>)
    requires
        fixed_header_wf(header),
    ensures
        spec_take_fixed_header(spec_encode_fixed_header(header) + tail) == Ok::<
            (FixedHeader, Seq<u8>),
            DecodeError,
        >((header, tail)),
{
    let s = spec_encode_fixed_header(header) + tail;
    let first = (header.packet_type.spec_code() * 16 + header.flags) as u8;
    assert(s[0] == first);
    assert(first / 16 == header.packet_type.spec_code());
    assert(first % 16 == header.flags);
    lemma_packet_type_roundtrip(header.packet_type);
    assert(s.skip(1) =~= spec_encode_varint(header.remaining_length) + tail);
    crate::wire::roundtrip::lemma_varint_shape(header.remaining_length);
    crate::wire::roundtrip::lemma_varint_decode_encode(header.remaining_length, tail);
    let t = s.skip(1);
    let k = crate::wire::write::spec_varint_len(header.remaining_length);
    assert(t[k - 1] == spec_encode_varint(header.remaining_length).last());
    assert(t[k - 1] < 128);
}

/// Encoding a decoded header gives the bytes back, where the length was in
/// shortest form.
pub proof fn lemma_fixed_header_encode_decode(s: Seq<u8>)
    requires
        spec_take_fixed_header(s) is Ok,
        crate::wire::roundtrip::varint_is_shortest(s.skip(1)),
    ensures
        spec_encode_fixed_header(spec_take_fixed_header(s)->Ok_0.0) + spec_take_fixed_header(
            s,
        )->Ok_0.1 == s,
        fixed_header_wf(spec_take_fixed_header(s)->Ok_0.0),
{
    let header = spec_take_fixed_header(s)->Ok_0.0;
    let rest = spec_take_fixed_header(s)->Ok_0.1;
    crate::wire::roundtrip::lemma_varint_encode_decode(s.skip(1));
    crate::wire::roundtrip::lemma_varint_range(s.skip(1));
    lemma_packet_type_code(s[0] / 16);
    assert((header.packet_type.spec_code() * 16 + header.flags) as u8 == s[0]);
    assert(spec_encode_fixed_header(header) + rest =~= seq![s[0]] + (spec_encode_varint(
        header.remaining_length,
    ) + rest));
    assert(seq![s[0]] + s.skip(1) =~= s);
}

/// A value that names a packet type is the value of that type.
pub proof fn lemma_packet_type_code(code: u8)
    requires
        PacketType::spec_from_code(code) is Some,
    ensures
        PacketType::spec_from_code(code)->0.spec_code() == code,
{
}

} // verus!
