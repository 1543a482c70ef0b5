//! A writer over a byte buffer of fixed size.
//!
//! A write either fits into what is left of the buffer and is copied there whole,
//! or it is refused and nothing changes.

use vstd::prelude::*;

verus! {

/// Where a seek offset is counted from.
#[derive(Clone, Copy, PartialEq, Eq, Debug, Structural)]
pub enum SeekStyle {
    /// From the start of the buffer.
    SeekSet,
    /// From the end of the buffer.
    SeekEnd,
    /// From the current position.
    SeekCur,
}

/// Why a writer refused an operation.
#[derive(Clone, Copy, PartialEq, Eq, Debug, Structural)]
pub enum BufError {
    /// The data does not fit between the position and the end of the buffer.
    PastEnd,
    /// The seek would place the position before the start of the buffer.
    NegativeSeek,
    /// The seek would place the position beyond what a position can hold.
    SeekOverflow,
    /// The value has no serialised form.
    Unencodable,
}

/// `base` with the bytes from `at` on replaced by `data`; `base` itself where
/// `data` would not lie within it.
pub open spec fn overwrite(base: Seq<u8>, at: int, data: Seq<u8>) -> Seq<u8> {
    if 0 <= at && at + data.len() <= base.len() {
        base.subrange(0, at) + data + base.subrange(at + data.len(), base.len() as int)
    } else {
        base
    }
}

/// The position a seek leads to, as a mathematical integer.
pub open spec fn seek_target(seek: SeekStyle, cur: int, end: int, offset: int) -> int {
    match seek {
        SeekStyle::SeekSet => offset,
        SeekStyle::SeekEnd => end + offset,
        SeekStyle::SeekCur => cur + offset,
    }
}

/// Computes the absolute position of a seek.
///
/// A position before the start is refused with `NegativeSeek`, one that does not
/// fit in 64 bits with `SeekOverflow`.
pub fn combine(seek: SeekStyle, cur: usize, end: usize, offset: i64) -> (r: Result<u64, BufError>)
    ensures
        seek_target(seek, cur as int, end as int, offset as int) < 0 ==> r == Err::<u64, BufError>(
            BufError::NegativeSeek,
        ),
        seek_target(seek, cur as int, end as int, offset as int) > u64::MAX ==> r == Err::<
            u64,
            BufError,
        >(BufError::SeekOverflow),
        0 <= seek_target(seek, cur as int, end as int, offset as int) <= u64::MAX ==> r == Ok::<
            u64,
            BufError,
        >(seek_target(seek, cur as int, end as int, offset as int) as u64),
{
    let base: i128 = match seek {
        SeekStyle::SeekSet => 0,
        SeekStyle::SeekEnd => end as i128,
        SeekStyle::SeekCur => cur as i128,
    };
    let target: i128 = base + offset as i128;
    if target < 0 {
        Err(BufError::NegativeSeek)
    } else if target > u64::MAX as i128 {
        Err(BufError::SeekOverflow)
    } else {
        Ok(target as u64)
    }
}

/// A buffer of `len` zero bytes.
pub fn zeroed(len: usize) -> (buffer: Vec<u8>)
    ensures
        buffer@.len() == len,
        forall|i: int| 0 <= i < len ==> buffer@[i] == 0,
{
    let mut buffer: Vec<u8> = Vec::new();
    let mut i: usize = 0;
    while i < len
        invariant
            i <= len,
            buffer@.len() == i,
            forall|j: int| 0 <= j < i ==> buffer@[j] == 0,
        decreases len - i,
    {
        buffer.push(0);
        i = i + 1;
    }
    buffer
}

/// Writes into a byte buffer of fixed size, from a position that moves forward
/// with each write.
pub struct BufWriter {
    buf: Vec<u8>,
    pos: usize,
}

impl BufWriter {
    /// All bytes of the buffer, written or not.
    pub closed spec fn contents(&self) -> Seq<u8> {
        self.buf@
    }

    /// The offset at which the next write starts.
    pub closed spec fn position(&self) -> nat {
        self.pos as nat
    }

    /// The size of the buffer.
    pub open spec fn capacity(&self) -> nat {
        self.contents().len()
    }

    /// The number of bytes that a write may still hold.
    pub open spec fn room(&self) -> nat {
        if self.position() >= self.capacity() {
            0
        } else {
            (self.capacity() - self.position()) as nat
        }
    }

    /// The bytes before the position; all bytes, where the position lies
    /// beyond the end.
    pub open spec fn written(&self) -> Seq<u8> {
        if self.position() <= self.capacity() {
            self.contents().take(self.position() as int)
        } else {
            self.contents()
        }
    }

    /// Wraps `buf`; the writer starts at position 0.
    pub fn new(buf: Vec<u8>) -> (w: BufWriter)
        ensures
            w.contents() == buf@,
            w.position() == 0,
    {
        BufWriter { buf, pos: 0 }
    }

    /// Gives back the buffer the writer was made with, holding all that was written.
    pub fn into_slice(self) -> (buf: Vec<u8>)
        ensures
            buf@ == self.contents(),
    {
        self.buf
    }

    /// Copies `data` to the position and moves the position past it, or refuses
    /// with `PastEnd` and changes nothing when `data` is longer than the room left.
    pub fn write(&mut self, data: &[u8]) -> (r: Result<(), BufError>)
        ensures
            r is Ok <==> data@.len() <= old(self).room(),
            r is Ok ==> final(self).contents() == overwrite(
                old(self).contents(),
                old(self).position() as int,
                data@,
            ),
            r is Ok ==> final(self).position() == old(self).position() + data@.len(),
            r is Ok ==> final(self).written() == old(self).written() + data@,
            r is Err ==> r == Err::<(), BufError>(BufError::PastEnd),
            r is Err ==> final(self).contents() == old(self).contents(),
            r is Err ==> final(self).position() == old(self).position(),
    {
        let cap: usize = if self.pos >= self.buf.len() {
            0
        } else {
            self.buf.len() - self.pos
        };
        if data.len() > cap {
            return Err(BufError::PastEnd);
        }
        if data.len() == 0 {
            assert(overwrite(self.buf@, self.pos as int, data@) =~= self.buf@);
            assert(self.written() + data@ =~= self.written());
            return Ok(());
        }
        let start: usize = self.pos;
        let mut i: usize = 0;
        assert(self.buf@ =~= overwrite(self.buf@, start as int, data@.take(0)));
        while i < data.len()
            invariant
                i <= data@.len(),
                start + data@.len() <= self.buf@.len() <= usize::MAX,
                self.pos == start,
                self.buf@.len() == old(self).buf@.len(),
                self.buf@ == overwrite(old(self).buf@, start as int, data@.take(i as int)),
            decreases data@.len() - i,
        {
            self.buf[start + i] = data[i];
            i = i + 1;
            assert(self.buf@ =~= overwrite(old(self).buf@, start as int, data@.take(i as int)));
        }
        assert(data@.take(i as int) =~= data@);
        self.pos = start + data.len();
        assert(self.buf@.take(self.pos as int) =~= old(self).buf@.take(start as int) + data@);
        Ok(())
    }

    /// The bytes before the position; all bytes, where the position lies
    /// beyond the end.
    pub fn filled(&self) -> (bytes: &[u8])
        ensures
            bytes@ == self.written(),
    {
        if self.pos <= self.buf.len() {
            vstd::slice::slice_subrange(self.buf.as_slice(), 0, self.pos)
        } else {
            self.buf.as_slice()
        }
    }

    /// The current position.
    pub fn tell(&self) -> (pos: u64)
        ensures
            pos == self.position(),
    {
        self.pos as u64
    }

    /// Moves the position; the buffer keeps its contents. A target that `combine`
    /// refuses, or that no `usize` holds, leaves the writer as it was.
    pub fn seek(&mut self, pos: i64, style: SeekStyle) -> (r: Result<(), BufError>)
        ensures
            final(self).contents() == old(self).contents(),
            ({
                let target = seek_target(
                    style,
                    old(self).position() as int,
                    old(self).capacity() as int,
                    pos as int,
                );
                if target < 0 {
                    r == Err::<(), BufError>(BufError::NegativeSeek) && final(self).position()
                        == old(self).position()
                } else if target > usize::MAX {
                    r == Err::<(), BufError>(BufError::SeekOverflow) && final(self).position()
                        == old(self).position()
                } else {
                    r is Ok && final(self).position() == target
                }
            }),
    {
        match combine(style, self.pos, self.buf.len(), pos) {
            Ok(new) => {
                if new > usize::MAX as u64 {
                    Err(BufError::SeekOverflow)
                } else {
                    self.pos = new as usize;
                    Ok(())
                }
            },
            Err(error) => Err(error),
        }
    }
}

} // verus!
