//! Frames over a byte stream: a length byte that counts itself, then the
//! payload. The framer collects what arrives and hands out every frame that is
//! complete.

use vstd::prelude::*;
use crate::buf_writer::zeroed;

verus! {

/// The largest frame, its length byte included.
pub const MAX_MSG_LENGTH: usize = 255;

/// Why a stream cannot be cut into frames any further.
#[derive(Clone, Copy, PartialEq, Eq, Debug, Structural)]
pub enum FrameError {
    /// A length byte of 0 or 1: a frame that could not even hold its payload.
    Malformed,
    /// A length byte larger than the receive buffer.
    TooLong,
}

/// What is wrong with the frame at the head of `stream`, if anything.
pub open spec fn head_fault(stream: Seq<u8>, capacity: nat) -> Option<FrameError> {
    if stream.len() == 0 {
        None
    } else if stream[0] <= 1 {
        Some(FrameError::Malformed)
    } else if stream[0] > capacity {
        Some(FrameError::TooLong)
    } else {
        None
    }
}

/// `stream` starts with a whole frame of a permitted length.
pub open spec fn head_complete(stream: Seq<u8>, capacity: nat) -> bool {
    &&& stream.len() > 0
    &&& 2 <= stream[0] <= capacity
    &&& stream[0] <= stream.len()
}

/// The payloads of the whole frames at the front of `stream`, in order, up to
/// the first frame that is incomplete or at fault.
pub open spec fn extracted(stream: Seq<u8>, capacity: nat) -> Seq<Seq<u8>>
    decreases stream.len(),
{
    if head_complete(stream, capacity) {
        seq![stream.subrange(1, stream[0] as int)] + extracted(
            stream.skip(stream[0] as int),
            capacity,
        )
    } else {
        Seq::<Seq<u8>>::empty()
    }
}

/// What is left of `stream` behind the whole frames at its front.
pub open spec fn remainder(stream: Seq<u8>, capacity: nat) -> Seq<u8>
    decreases stream.len(),
{
    if head_complete(stream, capacity) {
        remainder(stream.skip(stream[0] as int), capacity)
    } else {
        stream
    }
}

/// What is wrong with the first frame that is not whole, if anything.
pub open spec fn fault(stream: Seq<u8>, capacity: nat) -> Option<FrameError> {
    head_fault(remainder(stream, capacity), capacity)
}

/// The frame that carries `payload`: the length byte, then the payload.
pub open spec fn frame(payload: Seq<u8>) -> Seq<u8> {
    seq![(payload.len() + 1) as u8] + payload
}

/// `payload` fits a frame: it is not empty, and its frame is no longer than
/// `MAX_MSG_LENGTH`.
pub open spec fn frameable(payload: Seq<u8>) -> bool {
    1 <= payload.len() && payload.len() + 1 <= MAX_MSG_LENGTH
}

/// The frames of `messages`, one behind the other.
pub open spec fn framed(messages: Seq<Seq<u8>>) -> Seq<u8>
    decreases messages.len(),
{
    if messages.len() == 0 {
        Seq::<u8>::empty()
    } else {
        frame(messages[0]) + framed(messages.drop_first())
    }
}

/// The bytes of the given byte strings, in order.
pub open spec fn payloads(frames: Seq<Vec<u8>>) -> Seq<Seq<u8>> {
    frames.map_values(|frame: Vec<u8>| frame@)
}

/// What one receive cycle hands out.
#[derive(Clone, PartialEq, Eq, Debug)]
pub struct Delivery {
    /// The payloads of the frames that became complete, in the order of their
    /// arrival.
    pub frames: Vec<Vec<u8>>,
    /// Set when the stream is out of step behind these frames; the connection
    /// is then to be torn down.
    pub error: Option<FrameError>,
}

/// The receive side of one connection: the bytes that arrived and are not yet
/// handed out as frames, at the start of a buffer of fixed size.
pub struct StreamFramer {
    buffer: Vec<u8>,
    cursor: usize,
}

impl StreamFramer {
    #[verifier::type_invariant]
    spec fn well_formed(self) -> bool {
        self.cursor <= self.buffer@.len()
    }

    /// The bytes received and not yet handed out.
    pub closed spec fn pending(&self) -> Seq<u8> {
        self.buffer@.take(self.cursor as int)
    }

    /// The size of the receive buffer.
    pub closed spec fn capacity(&self) -> nat {
        self.buffer@.len()
    }

    /// A framer with an empty receive buffer of `capacity` bytes.
    pub fn new(capacity: usize) -> (framer: StreamFramer)
        ensures
            framer.pending() == Seq::<u8>::empty(),
            framer.capacity() == capacity,
    {
        let framer = StreamFramer { buffer: zeroed(capacity), cursor: 0 };
        assert(framer.buffer@.take(0) =~= Seq::<u8>::empty());
        framer
    }

    /// The number of bytes that the buffer can still take.
    pub fn room(&self) -> (room: usize)
        ensures
            room + self.pending().len() == self.capacity(),
    {
        proof {
            use_type_invariant(self);
        }
        self.buffer.len() - self.cursor
    }

    /// One receive cycle. `received` is what the transport offered, which may
    /// be nothing and is no more than the buffer has room for. It is put behind
    /// the pending bytes; every whole frame at the front of the stream is
    /// handed out, in order; what follows the last of them moves to the start
    /// of the buffer and stays pending.
    pub fn receive_messages(&mut self, received: &[u8]) -> (delivery: Delivery)
        requires
            received@.len() + old(self).pending().len() <= old(self).capacity(),
        ensures
            final(self).capacity() == old(self).capacity(),
            payloads(delivery.frames@) == extracted(
                old(self).pending() + received@,
                old(self).capacity(),
            ),
            final(self).pending() == remainder(
                old(self).pending() + received@,
                old(self).capacity(),
            ),
            delivery.error == fault(old(self).pending() + received@, old(self).capacity()),
    {
        proof {
            use_type_invariant(&*self);
        }
        // The state is taken out for the cycle and put back at its end, so that
        // the framer is whole at every moment.
        let mut state = StreamFramer { buffer: Vec::new(), cursor: 0 };
        core::mem::swap(self, &mut state);
        let StreamFramer { buffer, cursor } = state;
        let mut buffer = buffer;
        let ghost before = buffer@.take(cursor as int);
        let ghost stream = before + received@;
        let capacity: usize = buffer.len();

        let mut i: usize = 0;
        assert(buffer@.take(cursor + 0) =~= before + received@.take(0));
        while i < received.len()
            invariant
                i <= received@.len(),
                cursor + received@.len() <= capacity,
                buffer@.len() == capacity,
                before.len() == cursor,
                buffer@.take(cursor + i) == before + received@.take(i as int),
            decreases received@.len() - i,
        {
            let ghost filled = buffer@.take(cursor + i);
            buffer[cursor + i] = received[i];
            assert(buffer@.take(cursor + i) =~= filled);
            assert(buffer@.take(cursor + i + 1) =~= filled.push(received@[i as int]));
            assert(received@.take(i + 1) =~= received@.take(i as int).push(received@[i as int]));
            i = i + 1;
            assert(buffer@.take(cursor + i) =~= before + received@.take(i as int));
        }
        assert(received@.take(i as int) =~= received@);
        let end: usize = cursor + received.len();

        let mut frames: Vec<Vec<u8>> = Vec::new();
        let mut start: usize = 0;
        let mut stuck: bool = false;
        assert(stream.skip(0) =~= stream);
        assert(payloads(frames@) =~= Seq::<Seq<u8>>::empty());
        while start < end && !stuck
            invariant
                start <= end <= capacity,
                buffer@.len() == capacity,
                buffer@.take(end as int) == stream,
                extracted(stream, capacity as nat) == payloads(frames@) + extracted(
                    stream.skip(start as int),
                    capacity as nat,
                ),
                remainder(stream, capacity as nat) == remainder(
                    stream.skip(start as int),
                    capacity as nat,
                ),
                stuck ==> !head_complete(stream.skip(start as int), capacity as nat),
            decreases end - start + (if stuck { 0int } else { 1int }),
        {
            let ghost rest = stream.skip(start as int);
            let length: usize = buffer[start] as usize;
            assert(rest[0] == buffer@[start as int]);
            if length <= 1 || length > capacity || end - start < length {
                stuck = true;
            } else {
                let mut payload: Vec<u8> = Vec::new();
                let mut k: usize = 1;
                while k < length
                    invariant
                        1 <= k <= length,
                        start + length <= end <= capacity,
                        buffer@.len() == capacity,
                        buffer@.take(end as int) == stream,
                        rest == stream.skip(start as int),
                        payload@ == rest.subrange(1, k as int),
                    decreases length - k,
                {
                    payload.push(buffer[start + k]);
                    assert(buffer@[start + k] == stream[start + k]);
                    k = k + 1;
                    assert(payload@ =~= rest.subrange(1, k as int));
                }
                let ghost earlier = payloads(frames@);
                frames.push(payload);
                proof {
                    assert(payloads(frames@) =~= earlier.push(rest.subrange(1, length as int)));
                    assert(rest.skip(length as int) =~= stream.skip(start + length));
                    assert(head_complete(rest, capacity as nat));
                    assert(extracted(stream, capacity as nat) =~= payloads(frames@) + extracted(
                        stream.skip(start + length),
                        capacity as nat,
                    ));
                }
                start = start + length;
            }
        }
        let ghost left = stream.skip(start as int);
        assert(!head_complete(left, capacity as nat));
        assert(payloads(frames@) + Seq::<Seq<u8>>::empty() =~= payloads(frames@));

        let error: Option<FrameError> = if start < end {
            let length: usize = buffer[start] as usize;
            assert(left[0] == buffer@[start as int]);
            if length <= 1 {
                Some(FrameError::Malformed)
            } else if length > capacity {
                Some(FrameError::TooLong)
            } else {
                None
            }
        } else {
            None
        };

        let kept: usize = end - start;
        let mut j: usize = 0;
        while j < kept
            invariant
                j <= kept,
                kept == end - start,
                start <= end <= capacity,
                buffer@.len() == capacity,
                left.len() == kept,
                buffer@.take(j as int) == left.take(j as int),
                forall|m: int| start + j <= m < end ==> buffer@[m] == left[m - start],
            decreases kept - j,
        {
            if start > 0 {
                buffer[j] = buffer[start + j];
            }
            assert(buffer@[j as int] == left[j as int]);
            j = j + 1;
            assert(buffer@.take(j as int) =~= left.take(j as int));
        }
        assert(left.take(kept as int) =~= left);
        *self = StreamFramer { buffer, cursor: kept };
        Delivery { frames, error }
    }
}

/// The frame that carries `message`, a payload that fits a frame.
pub fn frame_message(message: &[u8]) -> (bytes: Vec<u8>)
    requires
        frameable(message@),
    ensures
        bytes@ == frame(message@),
{
    let mut bytes: Vec<u8> = Vec::new();
    bytes.push((message.len() + 1) as u8);
    let mut i: usize = 0;
    while i < message.len()
        invariant
            i <= message@.len(),
            bytes@ == seq![(message@.len() + 1) as u8] + message@.take(i as int),
        decreases message@.len() - i,
    {
        bytes.push(message[i]);
        i = i + 1;
        assert(bytes@ =~= seq![(message@.len() + 1) as u8] + message@.take(i as int));
    }
    assert(message@.take(i as int) =~= message@);
    bytes
}

/// The frame that carries `message`, or `None` for a payload that fits no
/// frame.
pub fn try_frame_message(message: &[u8]) -> (r: Option<Vec<u8>>)
    ensures
        r is Some <==> frameable(message@),
        r is Some ==> r->0@ == frame(message@),
{
    if message.len() >= 1 && message.len() < MAX_MSG_LENGTH {
        Some(frame_message(message))
    } else {
        None
    }
}

/// What stays pending is never a whole frame, and a stream without a fault
/// never fills the buffer: there is room for the rest of the frame that is
/// under way.
pub proof fn lemma_room_for_more(stream: Seq<u8>, capacity: nat)
    ensures
        !head_complete(remainder(stream, capacity), capacity),
        remainder(stream, capacity).len() <= stream.len(),
        fault(stream, capacity) is None && capacity > 0 ==> remainder(stream, capacity).len()
            < capacity,
    decreases stream.len(),
{
    if head_complete(stream, capacity) {
        lemma_room_for_more(stream.skip(stream[0] as int), capacity);
    }
}

/// Fragmentation does not show: a stream that arrives in two pieces gives the
/// frames of the first piece, then those of what the first piece left with the
/// second piece behind it; and these are the frames, the rest and the fault of
/// the stream in one piece.
pub proof fn lemma_fragmentation(first: Seq<u8>, second: Seq<u8>, capacity: nat)
    ensures
        extracted(first + second, capacity) == extracted(first, capacity) + extracted(
            remainder(first, capacity) + second,
            capacity,
        ),
        remainder(first + second, capacity) == remainder(
            remainder(first, capacity) + second,
            capacity,
        ),
        fault(first + second, capacity) == fault(remainder(first, capacity) + second, capacity),
    decreases first.len(),
{
    let whole = first + second;
    if head_complete(first, capacity) {
        let n = first[0] as int;
        assert(whole[0] == first[0]);
        assert(head_complete(whole, capacity));
        assert(whole.skip(n) =~= first.skip(n) + second);
        assert(whole.subrange(1, n) =~= first.subrange(1, n));
        lemma_fragmentation(first.skip(n), second, capacity);
        assert(extracted(whole, capacity) =~= extracted(first, capacity) + extracted(
            remainder(first, capacity) + second,
            capacity,
        ));
    } else {
        assert(extracted(first, capacity) + extracted(whole, capacity) =~= extracted(
            whole,
            capacity,
        ));
    }
}

/// Frames that were sent one behind the other come out as the messages that
/// were framed, in order, and whatever follows them is cut as if it stood
/// alone.
pub proof fn lemma_framed_stream(messages: Seq<Seq<u8>>, rest: Seq<u8>, capacity: nat)
    requires
        forall|i: int| 0 <= i < messages.len() ==> frameable(#[trigger] messages[i]),
        forall|i: int| 0 <= i < messages.len() ==> (#[trigger] messages[i]).len() < capacity,
    ensures
        extracted(framed(messages) + rest, capacity) == messages + extracted(rest, capacity),
        remainder(framed(messages) + rest, capacity) == remainder(rest, capacity),
        fault(framed(messages) + rest, capacity) == fault(rest, capacity),
    decreases messages.len(),
{
    if messages.len() == 0 {
        assert(framed(messages) + rest =~= rest);
        assert(messages + extracted(rest, capacity) =~= extracted(rest, capacity));
    } else {
        let message = messages[0];
        let later = messages.drop_first();
        let stream = framed(messages) + rest;
        let n = message.len() + 1;
        assert(frameable(message));
        assert(stream[0] == n as u8);
        assert(head_complete(stream, capacity));
        assert(stream.subrange(1, n as int) =~= message);
        assert(stream.skip(n as int) =~= framed(later) + rest);
        assert forall|i: int| 0 <= i < later.len() implies frameable(#[trigger] later[i])
            && later[i].len() < capacity by {
            assert(later[i] == messages[i + 1]);
        }
        lemma_framed_stream(later, rest, capacity);
        assert(messages =~= seq![message] + later);
        assert(extracted(stream, capacity) =~= messages + extracted(rest, capacity));
    }
}

} // verus!
