//! Frames: a four-byte length, then so many bytes.
use vstd::prelude::*;
use crate::protocol::{big_endian, big_endian_len};

verus! {

/// The largest payload of a frame.
pub const MAX_FRAME_SIZE: u32 = 1024 * 1024;

/// The length that four big-endian bytes write.
pub open spec fn frame_length(header: Seq<u8>) -> nat {
    (header[0] * 0x100_0000 + header[1] * 0x1_0000 + header[2] * 0x100 + header[3]) as nat
}

/// The frame around a payload.
pub open spec fn framed(payload: Seq<u8>) -> Seq<u8> {
    big_endian(payload.len(), 4) + payload
}

/// How far a frame has arrived.
pub enum FrameState {
    /// So many more bytes of the frame may be read now.
    Wants(nat),
    /// The frame announces too many bytes.
    TooLarge(nat),
    /// The whole frame is there.
    Complete(Seq<u8>),
}

/// How far the frame has arrived with the bytes received so far.
pub open spec fn frame_state(received: Seq<u8>) -> FrameState {
    if received.len() < 4 {
        FrameState::Wants((4 - received.len()) as nat)
    } else {
        let length = frame_length(received);
        if length > MAX_FRAME_SIZE {
            FrameState::TooLarge(length)
        } else if received.len() < 4 + length {
            FrameState::Wants((4 + length - received.len()) as nat)
        } else {
            FrameState::Complete(received.subrange(4, (4 + length) as int))
        }
    }
}

/// What to do next about a frame.
pub enum FrameStep {
    /// Read up to so many bytes and hand them over.
    Read(usize),
    /// The frame is whole.
    Payload(Vec<u8>),
    /// The frame is too large; its announced length.
    TooLarge(u32),
}

/// Where a frame broke off when the peer closed.
#[derive(Clone, Copy, Debug, PartialEq, Eq, Structural)]
pub enum FrameEnd {
    /// Before its first byte: there is no further frame.
    Clean,
    /// Inside its header, of which so many bytes had come.
    TruncatedHeader(usize),
    /// Inside its payload, which should have had so many bytes.
    TruncatedPayload(u32),
}

/// A frame on its way in.
pub struct FrameReader {
    received: Vec<u8>,
}

impl View for FrameReader {
    type V = Seq<u8>;

    closed spec fn view(&self) -> Seq<u8> {
        self.received@
    }
}

impl FrameReader {
    /// No byte has come yet.
    pub fn new() -> (reader: FrameReader)
        ensures
            reader@ == Seq::<u8>::empty(),
    {
        FrameReader { received: Vec::new() }
    }

    fn length(&self) -> (length: u32)
        requires
            self@.len() >= 4,
        ensures
            length == frame_length(self@),
    {
        self.received[0] as u32 * 0x100_0000 + self.received[1] as u32 * 0x1_0000
            + self.received[2] as u32 * 0x100 + self.received[3] as u32
    }

    /// What to do next.
    pub fn step(&self) -> (step: FrameStep)
        ensures
            match frame_state(self@) {
                FrameState::Wants(count) => step matches FrameStep::Read(got) && got == count && got
                    > 0,
                FrameState::TooLarge(length) => step matches FrameStep::TooLarge(got) && got
                    == length,
                FrameState::Complete(payload) => step matches FrameStep::Payload(got) && got@
                    == payload,
            },
    {
        let count = self.received.len();
        if count < 4 {
            return FrameStep::Read(4 - count);
        }
        let length = self.length();
        if length > MAX_FRAME_SIZE {
            return FrameStep::TooLarge(length);
        }
        if count < 4 + length as usize {
            return FrameStep::Read(4 + length as usize - count);
        }
        let (head, _) = self.received.as_slice().split_at(4 + length as usize);
        let (_, payload) = head.split_at(4);
        assert(payload@ =~= self@.subrange(4, (4 + length) as int));
        FrameStep::Payload(vstd::slice::slice_to_vec(payload))
    }

    /// Bytes arrived: as many as `step` asked for, or fewer.
    pub fn feed(&mut self, bytes: &[u8])
        ensures
            final(self)@ == old(self)@ + bytes@,
    {
        self.received.extend_from_slice(bytes);
    }

    /// The peer closed before the frame was whole.
    pub fn end(&self) -> (end: FrameEnd)
        ensures
            end == if self@.len() == 0 {
                FrameEnd::Clean
            } else if self@.len() < 4 {
                FrameEnd::TruncatedHeader(self@.len() as usize)
            } else {
                FrameEnd::TruncatedPayload(frame_length(self@) as u32)
            },
    {
        let count = self.received.len();
        if count == 0 {
            FrameEnd::Clean
        } else if count < 4 {
            FrameEnd::TruncatedHeader(count)
        } else {
            FrameEnd::TruncatedPayload(self.length())
        }
    }
}

/// Why a payload is not framed.
#[derive(Clone, Copy, Debug, PartialEq, Eq, Structural)]
pub enum FrameError {
    /// Its length does not even fit four bytes.
    Unrepresentable,
    /// It is larger than a frame may be; its length.
    TooLarge(u32),
}

/// Frames a payload.
pub fn frame_bytes(payload: &[u8]) -> (result: Result<Vec<u8>, FrameError>)
    ensures
        match result {
            Ok(frame) => frame@ == framed(payload@) && payload@.len() <= MAX_FRAME_SIZE,
            Err(FrameError::TooLarge(length)) => length == payload@.len() && MAX_FRAME_SIZE < length,
            Err(FrameError::Unrepresentable) => payload@.len() > u32::MAX,
        },
{
    let count = payload.len();
    if count > u32::MAX as usize {
        return Err(FrameError::Unrepresentable);
    }
    let length = count as u32;
    if length > MAX_FRAME_SIZE {
        return Err(FrameError::TooLarge(length));
    }
    let mut frame: Vec<u8> = Vec::new();
    frame.push((length / 0x100_0000) as u8);
    frame.push((length / 0x1_0000 % 256) as u8);
    frame.push((length / 0x100 % 256) as u8);
    frame.push((length % 256) as u8);
    proof {
        reveal_with_fuel(big_endian, 5);
        assert(frame@ =~= big_endian(length as nat, 4));
    }
    frame.extend_from_slice(payload);
    Ok(frame)
}

/// What was framed arrives: the whole frame is complete and holds the payload.
pub proof fn frame_round_trip(payload: Seq<u8>)
    requires
        payload.len() <= MAX_FRAME_SIZE,
    ensures
        frame_state(framed(payload)) == FrameState::Complete(payload),
{
    let frame = framed(payload);
    header_of_frame(payload);
    assert(frame.subrange(4, 4 + payload.len() as int) =~= payload);
}

proof fn header_of_frame(payload: Seq<u8>)
    requires
        payload.len() <= MAX_FRAME_SIZE,
    ensures
        big_endian(payload.len(), 4).len() == 4,
        frame_length(framed(payload)) == payload.len(),
{
    let length = payload.len();
    big_endian_len(length, 4);
    reveal_with_fuel(big_endian, 5);
    let header = big_endian(length, 4);
    assert(header[0] == (length / 256 / 256 / 256 % 256) as u8);
    assert(header[1] == (length / 256 / 256 % 256) as u8);
    assert(header[2] == (length / 256 % 256) as u8);
    assert(header[3] == (length % 256) as u8);
    assert(forall|i: int| 0 <= i < 4 ==> framed(payload)[i] == header[i]);
}

/// However a frame is cut into pieces, no piece but the last completes it, and
/// what is asked for never reaches into the next frame.
pub proof fn frame_fragments(payload: Seq<u8>, received: int)
    requires
        payload.len() <= MAX_FRAME_SIZE,
        0 <= received < 4 + payload.len(),
    ensures
        frame_state(framed(payload).take(received)) matches FrameState::Wants(count) && 1 <= count
            <= 4 + payload.len() - received,
{
    header_of_frame(payload);
    let frame = framed(payload);
    if received >= 4 {
        assert(frame.take(received)[0] == frame[0]);
        assert(frame.take(received)[1] == frame[1]);
        assert(frame.take(received)[2] == frame[2]);
        assert(frame.take(received)[3] == frame[3]);
        assert(frame_length(frame.take(received)) == payload.len());
    }
}

} // verus!
