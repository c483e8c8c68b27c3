//! The encoder surface: an append-only byte sink and the primitive writes
//! every packet encoder is built from.

use vstd::prelude::*;
use crate::wire::read::VARINT_MAX;

verus! {

/// Why a write failed.
#[derive(Clone, Copy, Debug, PartialEq, Eq, Structural)]
pub enum MqttWriteError {
    /// The value to write breaks an invariant of the wire format.
    Invariant,
    /// The sink has no room left.
    BufferFull,
}

/// The result of an encoder.
pub type WResult<W> = Result<(), <W as WriteMqttPacket>::Error>;

/// What a sink looks like from outside: the bytes written so far, and how
/// many more bytes it promises to take. A sink that can fail at any time
/// promises nothing (`None`).
pub struct SinkState {
    pub written: Seq<u8>,
    pub room: Option<nat>,
}

/// `after` holds everything `before` holds, in the same places.
pub open spec fn extends(before: Seq<u8>, after: Seq<u8>) -> bool {
    &&& before.len() <= after.len()
    &&& forall|i: int| 0 <= i < before.len() ==> after[i] == before[i]
}

/// What an encoder owes its sink. On success exactly `bytes` were appended.
/// On failure nothing already written was lost, and what was appended is
/// the beginning of `bytes`, as far as the write came. A sink that had
/// promised room for at least as many bytes cannot fail, and after a
/// success it still promises what is left of its room.
pub open spec fn write_outcome(before: SinkState, after: SinkState, bytes: Seq<u8>, ok: bool) -> bool {
    &&& if ok {
        after.written == before.written + bytes
    } else {
        extends(before.written, after.written) && extends(after.written, before.written + bytes)
    }
    &&& before.room is Some ==> {
        &&& bytes.len() <= before.room->0 ==> ok
        &&& ok ==> after.room is Some && after.room->0 >= before.room->0 - bytes.len()
    }
}

/// What a failed write leaves behind: the bytes that were there, and
/// after them the first bytes of what was to be written, as many as were
/// appended.
pub proof fn lemma_failed_write(before: SinkState, after: SinkState, bytes: Seq<u8>)
    requires
        write_outcome(before, after, bytes, false),
    ensures
        before.written.len() <= after.written.len() <= before.written.len() + bytes.len(),
        after.written == before.written + bytes.take(after.written.len() - before.written.len()),
{
    let k = after.written.len() - before.written.len();
    assert(after.written =~= before.written + bytes.take(k)) by {
        assert forall|i: int| 0 <= i < after.written.len() implies after.written[i] == (
        before.written + bytes.take(k))[i] by {
            assert(after.written[i] == (before.written + bytes)[i]);
        }
    }
}

pub open spec fn spec_encode_u16(v: u16) -> Seq<u8> {
    seq![(v / 256) as u8, (v % 256) as u8]
}

pub open spec fn spec_encode_u32(v: u32) -> Seq<u8> {
    seq![
        (v / 16777216) as u8,
        ((v / 65536) % 256) as u8,
        ((v / 256) % 256) as u8,
        (v % 256) as u8,
    ]
}

/// The shortest encoding of a variable-length integer.
pub open spec fn spec_encode_varint(v: u32) -> Seq<u8> {
    if v < 128 {
        seq![v as u8]
    } else if v < 16384 {
        seq![(v % 128 + 128) as u8, (v / 128) as u8]
    } else if v < 2097152 {
        seq![(v % 128 + 128) as u8, ((v / 128) % 128 + 128) as u8, (v / 16384) as u8]
    } else {
        seq![
            (v % 128 + 128) as u8,
            ((v / 128) % 128 + 128) as u8,
            ((v / 16384) % 128 + 128) as u8,
            (v / 2097152) as u8,
        ]
    }
}

/// Number of bytes of the shortest encoding of a variable-length integer.
pub open spec fn spec_varint_len(v: u32) -> nat {
    if v < 128 {
        1
    } else if v < 16384 {
        2
    } else if v < 2097152 {
        3
    } else {
        4
    }
}

/// A two-byte length, then the bytes. Meant for at most 65 535 bytes.
pub open spec fn spec_encode_binary(b: Seq<u8>) -> Seq<u8> {
    spec_encode_u16(b.len() as u16) + b
}

/// The parts one after the other.
pub open spec fn concat_all(parts: Seq<Seq<u8>>) -> Seq<u8>
    decreases parts.len(),
{
    if parts.len() == 0 {
        Seq::empty()
    } else {
        parts[0] + concat_all(parts.skip(1))
    }
}

/// The first `n` parts one after the other.
pub open spec fn concat_first(parts: Seq<Seq<u8>>, n: int) -> Seq<u8> {
    concat_all(parts.take(n))
}

/// All the parts are the first `n` of them followed by the others.
pub proof fn lemma_concat_split(parts: Seq<Seq<u8>>, n: int)
    requires
        0 <= n <= parts.len(),
    ensures
        concat_all(parts) == concat_first(parts, n) + concat_all(parts.skip(n)),
    decreases parts.len(),
{
    reveal_with_fuel(concat_all, 2);
    if n == 0 {
        assert(parts.take(0) =~= Seq::<Seq<u8>>::empty());
        assert(parts.skip(0) =~= parts);
        assert(concat_first(parts, 0) + concat_all(parts) =~= concat_all(parts));
    } else {
        let tail = parts.skip(1);
        lemma_concat_split(tail, n - 1);
        assert(tail.skip(n - 1) =~= parts.skip(n));
        assert(parts.take(n).skip(1) =~= tail.take(n - 1));
        assert(concat_first(parts, n) =~= parts[0] + concat_first(tail, n - 1));
        assert(parts[0] + (concat_first(tail, n - 1) + concat_all(parts.skip(n))) =~= (parts[0]
            + concat_first(tail, n - 1)) + concat_all(parts.skip(n)));
    }
}

/// Taking one part more appends that part, and the first parts are the
/// beginning of all of them together.
pub proof fn lemma_concat_step(parts: Seq<Seq<u8>>, n: int)
    requires
        0 <= n < parts.len(),
    ensures
        concat_first(parts, n + 1) == concat_first(parts, n) + parts[n],
        concat_first(parts, n + 1).len() <= concat_all(parts).len(),
        extends(concat_first(parts, n + 1), concat_all(parts)),
        concat_first(parts, 0).len() == 0,
        concat_first(parts, parts.len() as int) == concat_all(parts),
    decreases parts.len(),
{
    reveal_with_fuel(concat_all, 2);
    lemma_concat_split(parts, n + 1);
    assert(parts.take(0) =~= Seq::<Seq<u8>>::empty());
    assert(parts.take(parts.len() as int) =~= parts);
    if n == 0 {
        assert(parts.take(1).skip(1) =~= Seq::<Seq<u8>>::empty());
        assert(concat_all(parts.take(1)) =~= parts[0]);
        assert(concat_first(parts, 0) + parts[0] =~= parts[0]);
    } else {
        let tail = parts.skip(1);
        lemma_concat_step(tail, n - 1);
        assert(parts.take(n + 1).skip(1) =~= tail.take(n));
        assert(parts.take(n).skip(1) =~= tail.take(n - 1));
        assert(concat_first(parts, n + 1) =~= parts[0] + concat_first(tail, n));
        assert(concat_first(parts, n) =~= parts[0] + concat_first(tail, n - 1));
        assert(parts[0] + (concat_first(tail, n - 1) + tail[n - 1]) =~= (parts[0] + concat_first(
            tail,
            n - 1,
        )) + parts[n]);
    }
}

/// An append-only byte sink. Implementations decide when a write fails; a
/// sink backed by a fixed array fails when it is full.
pub trait WriteMqttPacket: Sized {
    type Error: From<MqttWriteError>;

    /// The bytes written so far and the room promised.
    spec fn state(&self) -> SinkState;

    /// Appends one byte, or fails and appends nothing.
    fn write_byte(&mut self, u: u8) -> (r: WResult<Self>)
        ensures
            write_outcome(old(self).state(), final(self).state(), seq![u], r is Ok),
            r is Err ==> final(self).state().written == old(self).state().written,
    ;

    /// Appends the bytes of `u`. Where it fails, it has appended a
    /// beginning of them.

    fn write_slice(&mut self, u: &[u8]) -> (r: WResult<Self>)
        ensures
            write_outcome(old(self).state(), final(self).state(), u@, r is Ok),
    ;

    /// Writes `u` as two bytes, high byte first.
    fn write_u16(&mut self, u: u16) -> (r: WResult<Self>)
        ensures
            write_outcome(old(self).state(), final(self).state(), spec_encode_u16(u), r is Ok),
    {
        let ghost before = self.state().written;
        self.write_byte((u / 256) as u8)?;
        let r = self.write_byte((u % 256) as u8);
        proof {
            if r is Ok {
                assert(self.state().written =~= before + spec_encode_u16(u));
            }
        }
        r
    }

    /// Writes `u` as four bytes, high byte first.
    fn write_u32(&mut self, u: u32) -> (r: WResult<Self>)
        ensures
            write_outcome(old(self).state(), final(self).state(), spec_encode_u32(u), r is Ok),
    {
        let ghost before = self.state().written;
        self.write_byte((u / 16777216) as u8)?;
        self.write_byte(((u / 65536) % 256) as u8)?;
        self.write_byte(((u / 256) % 256) as u8)?;
        let r = self.write_byte((u % 256) as u8);
        proof {
            if r is Ok {
                assert(self.state().written =~= before + spec_encode_u32(u));
            }
        }
        r
    }

    /// Writes `u` as a variable-length integer in its shortest form. A value
    /// above `VARINT_MAX` is refused before anything is written.
    fn write_varint(&mut self, u: u32) -> (r: WResult<Self>)
        ensures
            u > VARINT_MAX ==> r is Err && *final(self) == *old(self),
            u <= VARINT_MAX ==> write_outcome(
                old(self).state(),
                final(self).state(),
                spec_encode_varint(u),
                r is Ok,
            ),
    {
        let ghost before = self.state().written;
        if u > VARINT_MAX {
            return Err(Self::Error::from(MqttWriteError::Invariant));
        }
        if u < 128 {
            return self.write_byte(u as u8);
        }
        self.write_byte((u % 128 + 128) as u8)?;
        if u < 16384 {
            let r = self.write_byte((u / 128) as u8);
            proof {
                if r is Ok {
                    assert(self.state().written =~= before + spec_encode_varint(u));
                }
            }
            return r;
        }
        self.write_byte(((u / 128) % 128 + 128) as u8)?;
        if u < 2097152 {
            let r = self.write_byte((u / 16384) as u8);
            proof {
                if r is Ok {
                    assert(self.state().written =~= before + spec_encode_varint(u));
                }
            }
            return r;
        }
        self.write_byte(((u / 16384) % 128 + 128) as u8)?;
        let r = self.write_byte((u / 2097152) as u8);
        proof {
            if r is Ok {
                assert(self.state().written =~= before + spec_encode_varint(u));
            }
        }
        r
    }

    /// Writes a two-byte length and then the bytes. More than 65 535 bytes
    /// are refused before anything is written.
    fn write_binary(&mut self, u: &[u8]) -> (r: WResult<Self>)
        ensures
            u@.len() > 65535 ==> r is Err && *final(self) == *old(self),
            u@.len() <= 65535 ==> write_outcome(
                old(self).state(),
                final(self).state(),
                spec_encode_binary(u@),
                r is Ok,
            ),
    {
        let ghost before = self.state().written;
        if u.len() > 65535 {
            return Err(Self::Error::from(MqttWriteError::Invariant));
        }
        self.write_u16(u.len() as u16)?;
        let r = self.write_slice(u);
        proof {
            if r is Ok {
                assert(self.state().written =~= before + spec_encode_binary(u@));
            }
        }
        r
    }
}

/// A sink that grows as needed and never fails.
#[derive(Debug)]
pub struct VecWriter {
    pub buffer: Vec<u8>,
}

impl VecWriter {
    pub fn new() -> (w: Self)
        ensures
            w.buffer@.len() == 0,
    {
        VecWriter { buffer: Vec::new() }
    }
}

impl WriteMqttPacket for VecWriter {
    type Error = MqttWriteError;

    open spec fn state(&self) -> SinkState {
        SinkState { written: self.buffer@, room: Some((usize::MAX - self.buffer@.len()) as nat) }
    }

    fn write_byte(&mut self, u: u8) -> (r: WResult<Self>)
        ensures
            r is Ok,
    {
        self.buffer.push(u);
        let len: usize = self.buffer.len();
        proof {
            assert(self.buffer@ =~= old(self).buffer@ + seq![u]);
        }
        Ok(())
    }

    fn write_slice(&mut self, u: &[u8]) -> (r: WResult<Self>)
        ensures
            r is Ok,
    {
        self.buffer.extend_from_slice(u);
        let len: usize = self.buffer.len();
        proof {
            assert(self.buffer@ =~= old(self).buffer@ + u@);
        }
        Ok(())
    }
}

/// A sink that holds at most `capacity` bytes and reports `BufferFull`
/// instead of growing further.
#[derive(Debug)]
pub struct BoundedWriter {
    pub buffer: Vec<u8>,
    pub capacity: usize,
}

impl BoundedWriter {
    pub fn new(capacity: usize) -> (w: Self)
        ensures
            w.buffer@.len() == 0,
            w.capacity == capacity,
    {
        BoundedWriter { buffer: Vec::new(), capacity }
    }
}

impl WriteMqttPacket for BoundedWriter {
    type Error = MqttWriteError;

    open spec fn state(&self) -> SinkState {
        SinkState {
            written: self.buffer@,
            room: if self.buffer@.len() <= self.capacity {
                Some((self.capacity - self.buffer@.len()) as nat)
            } else {
                None
            },
        }
    }

    fn write_byte(&mut self, u: u8) -> (r: WResult<Self>)
        ensures
            final(self).capacity == old(self).capacity,
            r is Ok <==> old(self).buffer@.len() < old(self).capacity,
            r is Err ==> r == Err::<(), MqttWriteError>(MqttWriteError::BufferFull)
                && final(self).buffer@ == old(self).buffer@,
    {
        if self.buffer.len() >= self.capacity {
            return Err(MqttWriteError::BufferFull);
        }
        self.buffer.push(u);
        proof {
            assert(self.buffer@ =~= old(self).buffer@ + seq![u]);
        }
        Ok(())
    }

    fn write_slice(&mut self, u: &[u8]) -> (r: WResult<Self>)
        ensures
            final(self).capacity == old(self).capacity,
            r is Ok <==> old(self).buffer@.len() + u@.len() <= old(self).capacity,
            r is Err ==> r == Err::<(), MqttWriteError>(MqttWriteError::BufferFull)
                && final(self).buffer@ == old(self).buffer@,
    {
        if self.buffer.len() > self.capacity || u.len() > self.capacity - self.buffer.len() {
            return Err(MqttWriteError::BufferFull);
        }
        self.buffer.extend_from_slice(u);
        proof {
            assert(self.buffer@ =~= old(self).buffer@ + u@);
        }
        Ok(())
    }
}

/// A sink that keeps no bytes and only counts them. It fails where the
/// count would no longer fit.
pub struct CountingWriter {
    pub count: usize,
    pub bytes: Ghost<Seq<u8>>,
}

impl CountingWriter {
    pub fn new() -> (w: Self)
        ensures
            w.count == 0,
            w.bytes@.len() == 0,
            w.counts(),
    {
        CountingWriter { count: 0, bytes: Ghost(Seq::empty()) }
    }

    /// The count is the number of bytes written.
    pub open spec fn counts(&self) -> bool {
        self.count == self.bytes@.len()
    }
}

impl WriteMqttPacket for CountingWriter {
    type Error = MqttWriteError;

    open spec fn state(&self) -> SinkState {
        SinkState {
            written: self.bytes@,
            room: if self.counts() {
                Some((usize::MAX - self.count) as nat)
            } else {
                None
            },
        }
    }

    fn write_byte(&mut self, u: u8) -> (r: WResult<Self>)
        ensures
            old(self).counts() ==> final(self).counts(),
    {
        if self.count == usize::MAX {
            return Err(MqttWriteError::BufferFull);
        }
        self.count = self.count + 1;
        self.bytes = Ghost(self.bytes@ + seq![u]);
        Ok(())
    }

    fn write_slice(&mut self, u: &[u8]) -> (r: WResult<Self>)
        ensures
            old(self).counts() ==> final(self).counts(),
    {
        if u.len() > usize::MAX - self.count {
            return Err(MqttWriteError::BufferFull);
        }
        self.count = self.count + u.len();
        self.bytes = Ghost(self.bytes@ + u@);
        Ok(())
    }
}

/// The value of a flag bit.
pub open spec fn bit(b: bool) -> int {
    if b {
        1
    } else {
        0
    }
}

} // verus!
