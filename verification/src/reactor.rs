//! What the state machines say to the reactor: tokens, subscriptions, delivery
//! options and the actions that carry them.

use vstd::prelude::*;

verus! {

/// The token of the listening socket.
pub const SERVER: usize = 0;

/// The token of the harness's own socket.
pub const CLIENT: usize = 1;

/// The token given to the first accepted connection.
pub const FIRST_CONN: usize = 2;

/// Identity of a registered socket.
#[derive(Clone, Copy, Debug, PartialEq, Eq, Structural)]
pub struct Token(pub usize);

/// The readiness conditions a socket is subscribed to.
#[derive(Clone, Copy, Debug, PartialEq, Eq, Structural)]
pub struct Interest {
    pub readable: bool,
    pub writable: bool,
    pub hup: bool,
}

impl Interest {
    pub open spec fn spec_none() -> Interest {
        Interest { readable: false, writable: false, hup: false }
    }

    pub open spec fn spec_readable() -> Interest {
        Interest { readable: true, writable: false, hup: false }
    }

    pub open spec fn spec_writable() -> Interest {
        Interest { readable: false, writable: true, hup: false }
    }

    pub open spec fn spec_hup() -> Interest {
        Interest { readable: false, writable: false, hup: true }
    }

    /// Every condition of `self` or of `other`.
    pub open spec fn with(self, other: Interest) -> Interest {
        Interest {
            readable: self.readable || other.readable,
            writable: self.writable || other.writable,
            hup: self.hup || other.hup,
        }
    }

    /// Every condition of `self` that `other` lacks.
    pub open spec fn without(self, other: Interest) -> Interest {
        Interest {
            readable: self.readable && !other.readable,
            writable: self.writable && !other.writable,
            hup: self.hup && !other.hup,
        }
    }

    /// Whether every condition of `other` is one of `self`.
    pub open spec fn includes(self, other: Interest) -> bool {
        &&& other.readable ==> self.readable
        &&& other.writable ==> self.writable
        &&& other.hup ==> self.hup
    }

    pub fn none() -> (r: Interest)
        ensures
            r == Interest::spec_none(),
    {
        Interest { readable: false, writable: false, hup: false }
    }

    pub fn readable() -> (r: Interest)
        ensures
            r == Interest::spec_readable(),
    {
        Interest { readable: true, writable: false, hup: false }
    }

    pub fn writable() -> (r: Interest)
        ensures
            r == Interest::spec_writable(),
    {
        Interest { readable: false, writable: true, hup: false }
    }

    pub fn hup() -> (r: Interest)
        ensures
            r == Interest::spec_hup(),
    {
        Interest { readable: false, writable: false, hup: true }
    }

    pub fn is_none(&self) -> (r: bool)
        ensures
            r == (*self == Interest::spec_none()),
    {
        !self.readable && !self.writable && !self.hup
    }

    pub fn is_readable(&self) -> (r: bool)
        ensures
            r == self.readable,
    {
        self.readable
    }

    pub fn is_writable(&self) -> (r: bool)
        ensures
            r == self.writable,
    {
        self.writable
    }

    pub fn is_hup(&self) -> (r: bool)
        ensures
            r == self.hup,
    {
        self.hup
    }

    pub fn contains(&self, other: Interest) -> (r: bool)
        ensures
            r == self.includes(other),
    {
        (!other.readable || self.readable) && (!other.writable || self.writable) && (!other.hup
            || self.hup)
    }

    pub fn insert(&mut self, other: Interest)
        ensures
            *final(self) == old(self).with(other),
    {
        self.readable = self.readable || other.readable;
        self.writable = self.writable || other.writable;
        self.hup = self.hup || other.hup;
    }

    pub fn remove(&mut self, other: Interest)
        ensures
            *final(self) == old(self).without(other),
    {
        self.readable = self.readable && !other.readable;
        self.writable = self.writable && !other.writable;
        self.hup = self.hup && !other.hup;
    }
}

/// How the reactor delivers the events of one registration.
#[derive(Clone, Copy, Debug, PartialEq, Eq, Structural)]
pub struct PollOpt {
    pub edge: bool,
    pub oneshot: bool,
}

impl PollOpt {
    pub open spec fn spec_edge() -> PollOpt {
        PollOpt { edge: true, oneshot: false }
    }

    pub open spec fn spec_edge_oneshot() -> PollOpt {
        PollOpt { edge: true, oneshot: true }
    }

    /// Edge-triggered delivery that stays armed.
    pub fn edge() -> (r: PollOpt)
        ensures
            r == PollOpt::spec_edge(),
    {
        PollOpt { edge: true, oneshot: false }
    }

    /// Edge-triggered delivery that disarms after one event.
    pub fn edge_oneshot() -> (r: PollOpt)
        ensures
            r == PollOpt::spec_edge_oneshot(),
    {
        PollOpt { edge: true, oneshot: true }
    }
}

/// What a state machine asks the reactor to deliver next for one socket.
#[derive(Clone, Copy, Debug, PartialEq, Eq, Structural)]
pub struct Registration {
    pub token: Token,
    pub interest: Interest,
    pub opts: PollOpt,
}

/// What a dispatched event asks of the reactor.
#[derive(Clone, Copy, Debug, PartialEq, Eq, Structural)]
pub enum Action {
    /// Register a socket that was just accepted.
    Register(Registration),
    /// Arm the socket of the event again.
    Reregister(Registration),
    /// Stop the run loop.
    Shutdown,
}

} // verus!
