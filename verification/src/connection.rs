//! One peer's connection, as far as it can be told without touching the
//! transport: what to make of the transport's answers, which frames a read
//! completes, and whether there is still something to release.

use vstd::prelude::*;
use crate::frame::{
    extracted, fault, frame, frame_message, frameable, payloads, remainder, Delivery, StreamFramer,
};

verus! {

/// The size of a connection's receive buffer.
pub const RECEIVE_BUFFER_SIZE: usize = 1024;

/// Why a message was not sent.
#[derive(Clone, Copy, PartialEq, Eq, Debug, Structural)]
pub enum SendError {
    /// The transport reported an error; the connection is lost.
    Failed,
    /// The transport took only `sent` of the `expected` bytes; the caller may
    /// try again.
    Partial { sent: usize, expected: usize },
}

/// Why nothing more can be received.
#[derive(Clone, Copy, PartialEq, Eq, Debug, Structural)]
pub enum ReceiveError {
    /// The peer closed the connection.
    Closed,
    /// The transport reported an error other than that nothing is there yet.
    Failed,
}

/// What to make of the transport's answer to a send of `expected` bytes:
/// `bytes_sent` is the number of bytes it took, or negative for an error.
pub fn check_sent(bytes_sent: isize, expected: usize) -> (r: Result<(), SendError>)
    ensures
        bytes_sent < 0 ==> r == Err::<(), SendError>(SendError::Failed),
        0 <= bytes_sent && bytes_sent != expected ==> r == Err::<(), SendError>(
            SendError::Partial { sent: bytes_sent as usize, expected },
        ),
        bytes_sent == expected ==> r is Ok,
{
    if bytes_sent < 0 {
        Err(SendError::Failed)
    } else if bytes_sent as usize != expected {
        Err(SendError::Partial { sent: bytes_sent as usize, expected })
    } else {
        Ok(())
    }
}

/// What to make of the transport's answer to a read that does not wait:
/// `bytes_received` is the number of bytes it gave, 0 when the peer has closed
/// the connection, or negative for an error, of which `would_block` says
/// whether it only means that nothing is there yet. Nothing there yet is no
/// error: it counts as a read of no bytes.
pub fn check_received(bytes_received: isize, would_block: bool) -> (r: Result<
    usize,
    ReceiveError,
>)
    ensures
        bytes_received < 0 && would_block ==> r == Ok::<usize, ReceiveError>(0),
        bytes_received < 0 && !would_block ==> r == Err::<usize, ReceiveError>(
            ReceiveError::Failed,
        ),
        bytes_received == 0 ==> r == Err::<usize, ReceiveError>(ReceiveError::Closed),
        bytes_received > 0 ==> r == Ok::<usize, ReceiveError>(bytes_received as usize),
{
    if bytes_received < 0 {
        if would_block {
            Ok(0)
        } else {
            Err(ReceiveError::Failed)
        }
    } else if bytes_received == 0 {
        Err(ReceiveError::Closed)
    } else {
        Ok(bytes_received as usize)
    }
}

/// One peer's connection: the descriptor of its transport, the framing state
/// of what was received, and whether the transport is still held.
pub struct Connection {
    fd: i32,
    framer: StreamFramer,
    open: bool,
}

impl Connection {
    /// The descriptor of the transport.
    pub closed spec fn descriptor(&self) -> i32 {
        self.fd
    }

    /// The bytes received and not yet handed out as frames.
    pub closed spec fn pending(&self) -> Seq<u8> {
        self.framer.pending()
    }

    /// The size of the receive buffer.
    pub closed spec fn capacity(&self) -> nat {
        self.framer.capacity()
    }

    /// The transport has not been released yet.
    pub closed spec fn is_open(&self) -> bool {
        self.open
    }

    /// The connection once it is closed: the same, but for being open.
    pub closed spec fn closed(self) -> Connection {
        Connection { fd: self.fd, framer: self.framer, open: false }
    }

    /// A connection over the transport `fd`, open and with nothing received.
    pub fn from_fd(fd: i32) -> (connection: Connection)
        ensures
            connection.descriptor() == fd,
            connection.is_open(),
            connection.pending() == Seq::<u8>::empty(),
            connection.capacity() == RECEIVE_BUFFER_SIZE,
    {
        Connection { fd, framer: StreamFramer::new(RECEIVE_BUFFER_SIZE), open: true }
    }

    /// The descriptor of the transport.
    pub fn fd(&self) -> (fd: i32)
        ensures
            fd == self.descriptor(),
    {
        self.fd
    }

    /// Whether the transport has not been released yet.
    pub fn open(&self) -> (open: bool)
        ensures
            open == self.is_open(),
    {
        self.open
    }

    /// The number of bytes that the next read may bring.
    pub fn room(&self) -> (room: usize)
        ensures
            room + self.pending().len() == self.capacity(),
    {
        self.framer.room()
    }

    /// The bytes to hand to the transport in one piece to send `message`, a
    /// payload that fits a frame: its frame.
    pub fn send_message(&self, message: &[u8]) -> (bytes: Vec<u8>)
        requires
            frameable(message@),
        ensures
            bytes@ == frame(message@),
    {
        frame_message(message)
    }

    /// One receive cycle on what the transport offered, as
    /// `StreamFramer::receive_messages` runs it.
    pub fn receive_messages(&mut self, received: &[u8]) -> (delivery: Delivery)
        requires
            received@.len() + old(self).pending().len() <= old(self).capacity(),
        ensures
            final(self).descriptor() == old(self).descriptor(),
            final(self).is_open() == old(self).is_open(),
            final(self).capacity() == old(self).capacity(),
            payloads(delivery.frames@) == extracted(
                old(self).pending() + received@,
                old(self).capacity(),
            ),
            final(self).pending() == remainder(
                old(self).pending() + received@,
                old(self).capacity(),
            ),
            delivery.error == fault(old(self).pending() + received@, old(self).capacity()),
    {
        self.framer.receive_messages(received)
    }

    /// Closes the connection. The first close hands out the descriptor of the
    /// transport, which is then to be released; every later close finds the
    /// connection closed, hands out nothing and changes nothing.
    pub fn close(&mut self) -> (release: Option<i32>)
        ensures
            *final(self) == old(self).closed(),
            !final(self).is_open(),
            !old(self).is_open() ==> *final(self) == *old(self),
            final(self).descriptor() == old(self).descriptor(),
            final(self).pending() == old(self).pending(),
            final(self).capacity() == old(self).capacity(),
            release == if old(self).is_open() {
                Some(old(self).descriptor())
            } else {
                None
            },
    {
        if self.open {
            self.open = false;
            Some(self.fd)
        } else {
            None
        }
    }

    /// Closing twice is closing once: a closed connection is not open, and
    /// closing it leaves it as it is.
    pub proof fn lemma_close_idempotent(self)
        ensures
            !self.closed().is_open(),
            self.closed().closed() == self.closed(),
            !self.is_open() ==> self.closed() == self,
            self.closed().descriptor() == self.descriptor(),
            self.closed().pending() == self.pending(),
            self.closed().capacity() == self.capacity(),
    {
    }
}

} // verus!
