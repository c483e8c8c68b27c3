//! Cutting a stream of bytes into packets. The fixed header says how long a
//! packet is; a packet is handed out once all of it has arrived.

use vstd::prelude::*;
use crate::wire::fixed_header::FixedHeader;
use crate::wire::fixed_header::fixed_header_wf;
use crate::wire::fixed_header::lemma_fixed_header_decode_encode;
use crate::wire::fixed_header::spec_encode_fixed_header;
use crate::wire::fixed_header::spec_take_fixed_header;
use crate::wire::read::DecodeError;
use crate::wire::read::Reader;

verus! {

/// Where the first packet in `s` ends. `None` says that more bytes are
/// needed to tell, or to have all of the packet. A packet whose body is
/// longer than `maximum` is refused as soon as its header is there.
pub open spec fn spec_frame(s: Seq<u8>, maximum: u32) -> Result<Option<nat>, DecodeError> {
    match spec_take_fixed_header(s) {
        Err(DecodeError::Incomplete) => Ok(None),
        Err(e) => Err(e),
        Ok((header, rest)) => if header.remaining_length > maximum {
            Err(DecodeError::PacketTooLarge)
        } else if rest.len() < header.remaining_length {
            Ok(None)
        } else {
            Ok(Some((s.len() - rest.len() + header.remaining_length) as nat))
        },
    }
}

/// Where the first packet in `buffer` ends.
pub fn frame_length(buffer: &[u8], maximum: u32) -> (r: Result<Option<usize>, DecodeError>)
    ensures
        match spec_frame(buffer@, maximum) {
            Ok(Some(n)) => r == Ok::<Option<usize>, DecodeError>(Some(n as usize)) && 2 <= n
                <= buffer@.len(),
            Ok(None) => r == Ok::<Option<usize>, DecodeError>(None),
            Err(e) => r == Err::<Option<usize>, DecodeError>(e),
        },
{
    let mut reader = Reader::new(buffer);
    let header = match FixedHeader::parse(&mut reader) {
        Err(DecodeError::Incomplete) => {
            return Ok(None);
        },
        Err(e) => {
            return Err(e);
        },
        Ok(h) => h,
    };
    if header.remaining_length > maximum {
        return Err(DecodeError::PacketTooLarge);
    }
    if reader.len() < header.remaining_length as usize {
        return Ok(None);
    }
    proof {
        lemma_header_takes_bytes(buffer@);
    }
    Ok(Some(buffer.len() - reader.len() + header.remaining_length as usize))
}

/// A fixed header takes two to five bytes from the front of the input.
pub proof fn lemma_header_takes_bytes(s: Seq<u8>)
    requires
        spec_take_fixed_header(s) is Ok,
    ensures
        ({
            let rest = spec_take_fixed_header(s)->Ok_0.1;
            2 <= s.len() - rest.len() <= 5 && rest == s.skip(s.len() - rest.len())
        }),
{
    let t = s.skip(1);
    let rest = spec_take_fixed_header(s)->Ok_0.1;
    if t[0] < 128 {
        assert(rest =~= s.skip(2));
    } else if t[1] < 128 {
        assert(rest =~= s.skip(3));
    } else if t[2] < 128 {
        assert(rest =~= s.skip(4));
    } else {
        assert(rest =~= s.skip(5));
    }
}

/// A buffer that takes bytes as they arrive and hands out whole packets.
/// Its view is the bytes that arrived and were not handed out yet.
pub struct PacketBuffer {
    buffer: Vec<u8>,
    maximum_packet_size: u32,
}

impl View for PacketBuffer {
    type V = Seq<u8>;

    closed spec fn view(&self) -> Seq<u8> {
        self.buffer@
    }
}

impl PacketBuffer {
    /// The longest body that the buffer lets through.
    pub closed spec fn spec_maximum(&self) -> u32 {
        self.maximum_packet_size
    }

    /// An empty buffer that refuses packets whose body is longer than
    /// `maximum_packet_size`.
    pub fn new(maximum_packet_size: u32) -> (r: PacketBuffer)
        ensures
            r@.len() == 0,
            r.spec_maximum() == maximum_packet_size,
    {
        PacketBuffer { buffer: Vec::new(), maximum_packet_size }
    }

    /// Number of bytes that wait in the buffer.
    pub fn len(&self) -> (n: usize)
        ensures
            n == self@.len(),
    {
        self.buffer.len()
    }

    /// Changes the longest body that the buffer lets through, as the
    /// connection settles on one.
    pub fn set_maximum(&mut self, maximum_packet_size: u32)
        ensures
            final(self)@ == old(self)@,
            final(self).spec_maximum() == maximum_packet_size,
    {
        self.maximum_packet_size = maximum_packet_size;
    }

    /// Takes bytes that arrived.
    pub fn extend(&mut self, bytes: &[u8])
        ensures
            final(self)@ == old(self)@ + bytes@,
            final(self).spec_maximum() == old(self).spec_maximum(),
    {
        self.buffer.extend_from_slice(bytes);
        proof {
            assert(self.buffer@ =~= old(self).buffer@ + bytes@);
        }
    }

    /// Hands out the bytes of the first packet, once all of them are
    /// there, and keeps the rest. Where more bytes are needed, or the
    /// packet is refused, the buffer stays as it is.
    pub fn next_packet(&mut self) -> (r: Result<Option<Vec<u8>>, DecodeError>)
        ensures
            final(self).spec_maximum() == old(self).spec_maximum(),
            match spec_frame(old(self)@, old(self).spec_maximum()) {
                Ok(Some(n)) => r is Ok && r->Ok_0 is Some && r->Ok_0->0@ == old(self)@.take(n as int)
                    && final(self)@ == old(self)@.skip(n as int),
                Ok(None) => r is Ok && r->Ok_0 is None && final(self)@ == old(self)@,
                Err(e) => r is Err && r->Err_0 == e && final(self)@ == old(self)@,
            },
    {
        let n: usize = match frame_length(self.buffer.as_slice(), self.maximum_packet_size) {
            Err(e) => {
                return Err(e);
            },
            Ok(None) => {
                return Ok(None);
            },
            Ok(Some(n)) => n,
        };
        let mut packet = self.buffer.split_off(n);
        core::mem::swap(&mut self.buffer, &mut packet);
        proof {
            assert(packet@ =~= old(self)@.take(n as int));
            assert(self.buffer@ =~= old(self)@.skip(n as int));
        }
        Ok(Some(packet))
    }
}

/// The frame of an encoded header with its body is all of them: however
/// much follows, the first packet ends where its body ends.
pub proof fn lemma_frame_of_packet(header: FixedHeader, body: Seq<u8>, tail: Seq<u8>, maximum: u32)
    requires
        fixed_header_wf(header),
        body.len() == header.remaining_length,
        header.remaining_length <= maximum,
    ensures
        spec_frame(spec_encode_fixed_header(header) + body + tail, maximum) == Ok::<
            Option<nat>,
            DecodeError,
        >(Some((spec_encode_fixed_header(header) + body).len())),
{
    let s = spec_encode_fixed_header(header) + body + tail;
    assert(s =~= spec_encode_fixed_header(header) + (body + tail));
    lemma_fixed_header_decode_encode(header, body + tail);
}

/// A packet that the buffer hands out is whole: decoding it does not run
/// out of bytes, and nothing of the next packet is in it.
pub proof fn lemma_frame_is_whole(s: Seq<u8>, maximum: u32)
    requires
        spec_frame(s, maximum) is Ok,
        spec_frame(s, maximum)->Ok_0 is Some,
    ensures
        ({
            let n = spec_frame(s, maximum)->Ok_0->0;
            let header = spec_take_fixed_header(s)->Ok_0.0;
            let rest = spec_take_fixed_header(s)->Ok_0.1;
            &&& n <= s.len()
            &&& spec_take_fixed_header(s.take(n as int)) == Ok::<
                (FixedHeader, Seq<u8>),
                DecodeError,
            >((header, rest.take(header.remaining_length as int)))
        }),
{
    let n = spec_frame(s, maximum)->Ok_0->0;
    let header = spec_take_fixed_header(s)->Ok_0.0;
    let rest = spec_take_fixed_header(s)->Ok_0.1;
    lemma_header_takes_bytes(s);
    let k = s.len() - rest.len();
    let t = s.take(n as int);
    assert(t[0] == s[0]);
    assert(forall|i: int| 0 <= i < k - 1 ==> t.skip(1)[i] == s.skip(1)[i]);
    assert(t.skip(k) =~= rest.take(header.remaining_length as int));
    assert(t.skip(1).skip(k - 1) =~= t.skip(k));
    assert(s.skip(1).skip(k - 1) =~= s.skip(k));
}

} // verus!
