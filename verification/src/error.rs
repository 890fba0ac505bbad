//! The outcomes of non-blocking attempts and the conditions that stop a run.

use vstd::prelude::*;

verus! {

/// A condition that stops the whole run.
#[derive(Clone, Copy, Debug, PartialEq, Eq, Structural)]
pub enum Fatal {
    /// A readable event was delivered, yet the read produced no data.
    ReadWouldBlock,
    /// A readable event was delivered to the listener, yet nothing was pending.
    AcceptWouldBlock,
    /// The accept itself failed.
    AcceptFailed,
    /// The token denotes no connection of the table.
    UnknownToken,
    /// A writable event was delivered for the listener.
    ListenerWritable,
    /// The echo differs from what was sent.
    Mismatch { actual: u8, expect: u8 },
    /// The echo goes on after the last expected byte.
    Excess { actual: u8 },
    /// A read handed over more bytes than the buffer has room for.
    Overrun,
    /// The connection holds no buffer for the direction of the event.
    NoBuffer,
    /// The outcome is not one that the attempt made for this token can have.
    UnexpectedOutcome,
}

/// The outcome of the one non-blocking attempt made for a readable event: an
/// accept on the listener, a read on every other socket.
#[derive(Debug)]
pub enum ReadOutcome {
    /// No progress was possible.
    WouldBlock,
    /// The listener handed out a connection.
    Accepted,
    /// The bytes that the read produced, in order.
    Data(Vec<u8>),
    /// The socket reported an error.
    Error,
}

/// The outcome of the one non-blocking write made for a writable event.
#[derive(Clone, Copy, Debug, PartialEq, Eq, Structural)]
pub enum WriteOutcome {
    /// No progress was possible.
    WouldBlock,
    /// The socket took this many bytes.
    Wrote(usize),
    /// The socket reported an error.
    Error,
}

impl ReadOutcome {
    /// The bytes delivered; none unless the outcome is `Data`.
    pub open spec fn bytes(self) -> Seq<u8> {
        match self {
            ReadOutcome::Data(v) => v@,
            _ => Seq::empty(),
        }
    }
}

} // verus!
