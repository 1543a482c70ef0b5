//! Wire protocol and message framing for a client/server game: bounded text
//! packets of a header and typed parts, length-prefixed frames over a byte
//! stream, and the update/destroy payload that both carry.

pub mod acceptor;
pub mod buf_writer;
pub mod connection;
pub mod decimal;
pub mod decoder;
pub mod encoder;
pub mod frame;
pub mod id_pool;
pub mod json;
pub mod message;
pub mod packet;
pub mod part;
pub mod perception;
pub mod record;
pub mod round_trip;
pub mod text;

use vstd::prelude::*;

verus! {

/// No packet is larger than this many bytes.
pub const MAX_PACKET_SIZE: usize = 512;

/// A sequence number: a counter that only grows.
pub type Sequence = u64;

} // verus!
