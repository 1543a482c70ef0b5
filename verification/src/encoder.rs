//! Building one packet: a header line, then as many part lines as fit.

use vstd::prelude::*;
use core::marker::PhantomData;
use crate::buf_writer::{overwrite, zeroed, BufError, BufWriter};
use crate::decimal::{decimal_text, lemma_decimal_text_len};
use crate::part::MessagePart;
use crate::perception::{PerceptionHeader, PerceptionHeaderView};
use crate::record::Record;
use crate::{Sequence, MAX_PACKET_SIZE};
use crate::text::NEWLINE;

verus! {

/// Whether a packet that holds `written` and may grow to `capacity` bytes takes
/// the line of `part`: the part has a serialised form, and the packet has room
/// for its line.
pub open spec fn accepts<P: MessagePart>(written: Seq<u8>, capacity: nat, part: P::V) -> bool {
    &&& P::wire(part) is Some
    &&& written.len() + P::wire(part)->0.len() + 1 <= capacity
}

/// The packet after an attempt to add `part`.
pub open spec fn offered<P: MessagePart>(written: Seq<u8>, capacity: nat, part: P::V) -> Seq<u8> {
    if accepts::<P>(written, capacity, part) {
        written + P::wire(part)->0.push(NEWLINE)
    } else {
        written
    }
}

/// The packet after an attempt to add each of `parts` in turn: those that are
/// not accepted are left out, those behind them are still tried.
pub open spec fn packed<P: MessagePart>(written: Seq<u8>, capacity: nat, parts: Seq<P::V>) -> Seq<
    u8,
>
    decreases parts.len(),
{
    if parts.len() == 0 {
        written
    } else {
        offered::<P>(packed::<P>(written, capacity, parts.drop_last()), capacity, parts.last())
    }
}

/// A packet under construction: the header line, then the parts added so far,
/// one line each.
pub struct MessageEncoder<Part> {
    writer: BufWriter,
    part: PhantomData<Part>,
}

impl<Part> MessageEncoder<Part> {
    #[verifier::type_invariant]
    spec fn well_formed(self) -> bool {
        self.writer.position() <= self.writer.capacity() <= MAX_PACKET_SIZE
    }

    /// The bytes of the packet so far.
    pub closed spec fn written(&self) -> Seq<u8> {
        self.writer.written()
    }

    /// The size that the packet cannot exceed.
    pub closed spec fn capacity(&self) -> nat {
        self.writer.capacity()
    }
}

/// The smaller of a buffer's size and `MAX_PACKET_SIZE`: the capacity of a
/// packet that is built in a buffer of that size.
pub open spec fn packet_capacity(buffer_len: nat) -> nat {
    if buffer_len <= MAX_PACKET_SIZE {
        buffer_len
    } else {
        MAX_PACKET_SIZE as nat
    }
}

impl<Part: MessagePart> MessageEncoder<Part> {
    /// Starts a packet in `buffer`, of which no more than `MAX_PACKET_SIZE`
    /// bytes are used, with the line of `header`; `None`, when the header has
    /// no serialised form or its line is longer than the packet may be.
    pub fn with_header<Header: MessagePart>(buffer: Vec<u8>, header: &Header) -> (r: Option<
        MessageEncoder<Part>,
    >)
        ensures
            r is Some <==> Header::wire(header@) is Some && Header::wire(header@)->0.len() + 1
                <= packet_capacity(buffer@.len()),
            r is Some ==> r->0.written() == Header::wire(header@)->0.push(NEWLINE),
            r is Some ==> r->0.capacity() == packet_capacity(buffer@.len()),
    {
        let mut buffer = buffer;
        buffer.truncate(MAX_PACKET_SIZE);
        let mut writer = BufWriter::new(buffer);
        assert(writer.written() =~= Seq::<u8>::empty());
        match header.write(&mut writer) {
            Ok(()) => {},
            Err(_) => {
                return None;
            },
        }
        let end: [u8; 1] = [NEWLINE];
        match writer.write(end.as_slice()) {
            Ok(()) => {},
            Err(_) => {
                return None;
            },
        }
        assert(end@ =~= seq![NEWLINE]);
        assert(writer.written() =~= Header::wire(header@)->0.push(NEWLINE));
        Some(MessageEncoder { writer, part: PhantomData })
    }

    /// Starts a packet in `buffer`, of which no more than `MAX_PACKET_SIZE`
    /// bytes are used, with the line of the confirmed sequence number. The
    /// buffer must hold that line.
    pub fn new(buffer: Vec<u8>, confirmed_seq: Sequence) -> (encoder: MessageEncoder<Part>)
        requires
            decimal_text(confirmed_seq as nat).len() + 1 <= buffer@.len(),
        ensures
            encoder.written() == decimal_text(confirmed_seq as nat).push(NEWLINE),
            encoder.capacity() == packet_capacity(buffer@.len()),
    {
        proof {
            lemma_decimal_text_len(confirmed_seq as nat);
        }
        Self::with_header(buffer, &confirmed_seq).unwrap()
    }

    /// Appends the line of `part` if the packet has room for it. A part that
    /// cannot be serialised, or for whose line the packet has no room left, is
    /// refused: the packet stays as it was and the answer is `false`.
    pub fn add(&mut self, part: &Part) -> (ok: bool)
        ensures
            ok == accepts::<Part>(old(self).written(), old(self).capacity(), part@),
            final(self).written() == offered::<Part>(
                old(self).written(),
                old(self).capacity(),
                part@,
            ),
            final(self).capacity() == old(self).capacity(),
            final(self).written().len() <= final(self).capacity() <= MAX_PACKET_SIZE,
    {
        proof {
            use_type_invariant(&*self);
        }
        let mut scratch = BufWriter::new(zeroed(MAX_PACKET_SIZE));
        assert(scratch.written() =~= Seq::<u8>::empty());
        match part.write(&mut scratch) {
            Ok(()) => {},
            Err(_) => {
                return false;
            },
        }
        let end: [u8; 1] = [NEWLINE];
        assert(end@ =~= seq![NEWLINE]);
        match scratch.write(end.as_slice()) {
            Ok(()) => {},
            Err(_) => {
                return false;
            },
        }
        let addition = scratch.filled();
        assert(addition@ =~= Part::wire(part@)->0.push(NEWLINE));
        // The writer is taken out for the write and put back after it, so that
        // the encoder is whole at every moment.
        let mut writer = BufWriter::new(Vec::new());
        core::mem::swap(&mut self.writer, &mut writer);
        let outcome = writer.write(addition);
        self.writer = writer;
        outcome.is_ok()
    }

    /// The packet as it stands: no more than `MAX_PACKET_SIZE` bytes.
    pub fn into_bytes(self) -> (bytes: Vec<u8>)
        ensures
            bytes@ == self.written(),
            bytes@.len() <= self.capacity() <= MAX_PACKET_SIZE,
    {
        proof {
            use_type_invariant(&self);
        }
        vstd::slice::slice_to_vec(self.writer.filled())
    }

    /// Copies the packet to the start of `buffer` and hands out the part of
    /// `buffer` that holds it. A buffer shorter than the packet is left alone
    /// and the answer is `PastEnd`.
    pub fn encode<'a>(self, buffer: &'a mut [u8]) -> (r: Result<&'a [u8], BufError>)
        ensures
            r is Ok <==> self.written().len() <= old(buffer)@.len(),
            r is Ok ==> r->Ok_0@ == self.written(),
            r is Ok ==> r->Ok_0@.len() <= self.capacity() <= MAX_PACKET_SIZE,
            r is Ok ==> final(buffer)@ == overwrite(old(buffer)@, 0, self.written()),
            r is Err ==> r == Err::<&[u8], BufError>(BufError::PastEnd),
            r is Err ==> final(buffer)@ == old(buffer)@,
    {
        proof {
            use_type_invariant(&self);
        }
        let packet = self.writer.filled();
        let len: usize = packet.len();
        if len > buffer.len() {
            return Err(BufError::PastEnd);
        }
        let mut i: usize = 0;
        assert(buffer@ =~= overwrite(old(buffer)@, 0, packet@.take(0)));
        while i < len
            invariant
                i <= len == packet@.len(),
                len <= buffer@.len(),
                buffer@.len() == old(buffer)@.len(),
                buffer@ == overwrite(old(buffer)@, 0, packet@.take(i as int)),
            decreases len - i,
        {
            buffer[i] = packet[i];
            i = i + 1;
            assert(buffer@ =~= overwrite(old(buffer)@, 0, packet@.take(i as int)));
        }
        assert(packet@.take(len as int) =~= packet@);
        let out = vstd::slice::slice_subrange(buffer, 0, len);
        assert(out@ =~= packet@);
        Ok(out)
    }
}

/// Hands out packet encoders, each over a buffer of the largest packet size.
pub struct Encoder {
    buffer: Vec<u8>,
}

impl Encoder {
    #[verifier::type_invariant]
    spec fn well_formed(self) -> bool {
        self.buffer@.len() == MAX_PACKET_SIZE
    }

    /// The size of the packets that the encoder starts.
    pub closed spec fn packet_size(&self) -> nat {
        self.buffer@.len()
    }

    /// An encoder for packets of up to `MAX_PACKET_SIZE` bytes.
    pub fn new() -> (encoder: Encoder)
        ensures
            encoder.packet_size() == MAX_PACKET_SIZE,
    {
        Encoder { buffer: zeroed(MAX_PACKET_SIZE) }
    }

    /// Starts a packet that confirms `seq`.
    pub fn message<Part: MessagePart>(&mut self, seq: Sequence) -> (encoder: MessageEncoder<Part>)
        ensures
            encoder.written() == decimal_text(seq as nat).push(NEWLINE),
            encoder.capacity() == MAX_PACKET_SIZE,
            *final(self) == *old(self),
    {
        proof {
            use_type_invariant(&*self);
            lemma_decimal_text_len(seq as nat);
        }
        MessageEncoder::new(self.buffer.clone(), seq)
    }

    /// Starts a perception: a packet of update and destroy records under a
    /// perception header that confirms `last_action` and names no entity.
    pub fn perception<Id: MessagePart, Entity: MessagePart>(
        &mut self,
        last_action: Sequence,
    ) -> (encoder: MessageEncoder<Record<Id, Entity>>)
        ensures
            encoder.written() == <PerceptionHeader as MessagePart>::wire(
                PerceptionHeaderView { confirm_action: last_action, self_id: None },
            )->0.push(NEWLINE),
            encoder.capacity() == MAX_PACKET_SIZE,
            *final(self) == *old(self),
    {
        proof {
            use_type_invariant(&*self);
            lemma_decimal_text_len(last_action as nat);
        }
        let header = PerceptionHeader { confirm_action: last_action, self_id: None };
        MessageEncoder::with_header(self.buffer.clone(), &header).unwrap()
    }
}

} // verus!
