//! The result of one attempt to make progress on an incoming byte stream.

use vstd::prelude::*;

verus! {

/// What an attempt to read from a buffer came to.
#[derive(Debug)]
pub enum Outcome<T, E> {
    /// More bytes are needed before any progress can be made; the number says how
    /// many at least, and is never zero.
    Incomplete(u32),
    /// The peer violated the protocol. The value is to be sent to the peer, once,
    /// before the connection is closed.
    Fatal(E),
    /// The attempt produced a value.
    Success(T),
}

} // verus!
