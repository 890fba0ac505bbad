//! The state machine of one accepted connection: read a request, write it
//! back, read the next.

use vstd::prelude::*;
use crate::buffer::{Buffer, BufferView, Mode};
use crate::error::{Fatal, ReadOutcome, WriteOutcome};
use crate::reactor::{Interest, PollOpt, Registration, Token};

verus! {

/// Room of the buffer that a connection reads requests into.
pub const CONN_CAPACITY: usize = 2048;

/// The role in which a connection holds its buffer, if it holds one.
pub enum SlotView {
    Idle,
    PendingRead(BufferView),
    PendingWrite(BufferView),
}

/// What a server connection is: its identity, its subscription and its
/// buffer, pending in one role.
pub struct ConnView {
    pub token: Token,
    pub interest: Interest,
    pub slot: SlotView,
}

impl ConnView {
    /// A request is being awaited: the buffer is empty, in write mode, and the
    /// subscription is {readable}. A response is being flushed: the buffer is
    /// in read mode, undrained, and the subscription is {writable}. Without a
    /// buffer the connection has stopped for good and its subscription is
    /// empty.
    pub open spec fn wf(self) -> bool {
        match self.slot {
            SlotView::PendingRead(b) => b.wf() && b.mode == Mode::Write && b.content.len() == 0
                && self.interest == Interest::spec_readable(),
            SlotView::PendingWrite(b) => b.wf() && b.mode == Mode::Read && b.pos == 0
                && self.interest == Interest::spec_writable(),
            SlotView::Idle => self.interest == Interest::spec_none(),
        }
    }

    /// The connection as it is accepted.
    pub open spec fn fresh() -> ConnView {
        ConnView {
            token: Token(usize::MAX),
            interest: Interest::spec_readable(),
            slot: SlotView::PendingRead(BufferView::fresh(CONN_CAPACITY as nat)),
        }
    }

    pub open spec fn awaiting_request(self) -> bool {
        self.slot is PendingRead
    }

    pub open spec fn echoing_response(self) -> bool {
        self.slot is PendingWrite
    }

    /// The connection has stopped for good: it holds no buffer, so that no
    /// event can move it again.
    pub open spec fn inert(self) -> bool {
        self.slot is Idle
    }

    /// The connection still takes part in the exchange.
    pub open spec fn active(self) -> bool {
        self.awaiting_request() || self.echoing_response()
    }

    /// How many bytes one read may hand over.
    pub open spec fn read_room(self) -> nat {
        match self.slot {
            SlotView::PendingRead(b) => b.remaining(),
            _ => 0,
        }
    }

    /// The bytes that wait to be written back, in order.
    pub open spec fn pending_output(self) -> Seq<u8> {
        match self.slot {
            SlotView::PendingWrite(b) => b.unread(),
            _ => Seq::empty(),
        }
    }

    /// Whether a read outcome carries a request that the connection takes.
    pub open spec fn takes(self, outcome: ReadOutcome) -> bool {
        outcome is Data && 0 < outcome.bytes().len() <= self.read_room()
    }

    /// The connection after a readable event whose read ended in `outcome`.
    pub open spec fn after_readable(self, outcome: ReadOutcome) -> ConnView {
        match self.slot {
            SlotView::PendingRead(b) => if self.takes(outcome) {
                ConnView {
                    slot: SlotView::PendingWrite(b.write(outcome.bytes()).flip()),
                    interest: Interest::spec_writable(),
                    ..self
                }
            } else if outcome is Error {
                ConnView { slot: SlotView::Idle, interest: Interest::spec_none(), ..self }
            } else {
                self
            },
            _ => self,
        }
    }

    /// What a readable event whose read ended in `outcome` answers.
    pub open spec fn readable_result(self, outcome: ReadOutcome) -> Result<Registration, Fatal> {
        let rearm = Registration {
            token: self.token,
            interest: self.after_readable(outcome).interest,
            opts: PollOpt::spec_edge(),
        };
        match outcome {
            ReadOutcome::WouldBlock => Err(Fatal::ReadWouldBlock),
            ReadOutcome::Accepted => Err(Fatal::UnexpectedOutcome),
            ReadOutcome::Error => Ok(rearm),
            ReadOutcome::Data(v) => if v@.len() == 0 {
                Err(Fatal::ReadWouldBlock)
            } else if v@.len() > self.read_room() {
                Err(Fatal::Overrun)
            } else {
                Ok(rearm)
            },
        }
    }

    /// The connection after a writable event whose write ended in `outcome`.
    pub open spec fn after_writable(self, outcome: WriteOutcome) -> ConnView {
        match self.slot {
            SlotView::PendingWrite(b) => match outcome {
                WriteOutcome::WouldBlock => ConnView {
                    interest: Interest::spec_writable(),
                    ..self
                },
                WriteOutcome::Wrote(n) => ConnView {
                    slot: SlotView::PendingRead(b.advance(n as nat).flip()),
                    interest: Interest::spec_readable(),
                    ..self
                },
                WriteOutcome::Error => ConnView {
                    slot: SlotView::Idle,
                    interest: Interest::spec_none(),
                    ..self
                },
            },
            _ => self,
        }
    }

    /// What a writable event whose write ended in `outcome` answers.
    pub open spec fn writable_result(self, outcome: WriteOutcome) -> Registration {
        Registration {
            token: self.token,
            interest: self.after_writable(outcome).interest,
            opts: PollOpt::spec_edge_oneshot(),
        }
    }

    /// The connection after `n` writable events in a row whose writes would
    /// have blocked.
    pub open spec fn after_blocked_writes(self, n: nat) -> ConnView
        decreases n,
    {
        if n == 0 {
            self
        } else {
            self.after_writable(WriteOutcome::WouldBlock).after_blocked_writes((n - 1) as nat)
        }
    }
}

/// The buffer of a connection, held in exactly one role.
#[derive(Debug)]
pub enum Slot {
    /// No buffer: a socket error has stopped the connection for good.
    Idle,
    /// A buffer in write mode that the next request is read into.
    PendingRead(Buffer),
    /// A buffer in read mode whose bytes are written back.
    PendingWrite(Buffer),
}

impl View for Slot {
    type V = SlotView;

    open spec fn view(&self) -> SlotView {
        match self {
            Slot::Idle => SlotView::Idle,
            Slot::PendingRead(b) => SlotView::PendingRead(b@),
            Slot::PendingWrite(b) => SlotView::PendingWrite(b@),
        }
    }
}

/// The state of one accepted connection.
#[derive(Debug)]
pub struct EchoConn {
    pub token: Token,
    pub interest: Interest,
    pub slot: Slot,
}

impl View for EchoConn {
    type V = ConnView;

    open spec fn view(&self) -> ConnView {
        ConnView { token: self.token, interest: self.interest, slot: self.slot@ }
    }
}

impl EchoConn {
    /// A connection that awaits its first request. Its token is set when the
    /// table takes it in.
    pub fn new() -> (r: EchoConn)
        ensures
            r@ == ConnView::fresh(),
            r@.wf(),
    {
        EchoConn {
            token: Token(usize::MAX),
            interest: Interest::readable(),
            slot: Slot::PendingRead(Buffer::with_capacity(CONN_CAPACITY)),
        }
    }

    /// Whether the connection holds a buffer to read a request into.
    pub fn can_read(&self) -> (r: bool)
        ensures
            r == self@.awaiting_request(),
    {
        match &self.slot {
            Slot::PendingRead(_) => true,
            _ => false,
        }
    }

    /// Whether the connection holds a buffer to write back.
    pub fn can_write(&self) -> (r: bool)
        ensures
            r == self@.echoing_response(),
    {
        match &self.slot {
            Slot::PendingWrite(_) => true,
            _ => false,
        }
    }

    /// The number of bytes that the next read may hand over.
    pub fn read_room(&self) -> (r: usize)
        requires
            self@.wf(),
        ensures
            r == self@.read_room(),
    {
        match &self.slot {
            Slot::PendingRead(b) => b.remaining(),
            _ => 0,
        }
    }

    /// A copy of the bytes that the next write is to send.
    pub fn pending_output(&self) -> (r: Vec<u8>)
        requires
            self@.wf(),
        ensures
            r@ == self@.pending_output(),
    {
        match &self.slot {
            Slot::PendingWrite(b) => b.bytes(),
            _ => Vec::new(),
        }
    }

    /// Handles a readable event, given how the one read into the pending
    /// buffer ended. Data becomes the response to flush and the subscription
    /// turns to writable; an error drops the buffer and the subscription, for
    /// good; no data at all is fatal, and so is more data than there was room
    /// for.
    pub fn readable(&mut self, outcome: ReadOutcome) -> (r: Result<Registration, Fatal>)
        requires
            old(self)@.wf(),
            old(self)@.awaiting_request(),
        ensures
            final(self)@ == old(self)@.after_readable(outcome),
            r == old(self)@.readable_result(outcome),
            final(self)@.wf(),
    {
        let room: usize = self.read_room();
        match outcome {
            ReadOutcome::WouldBlock => Err(Fatal::ReadWouldBlock),
            ReadOutcome::Accepted => Err(Fatal::UnexpectedOutcome),
            ReadOutcome::Data(v) => {
                if v.len() == 0 {
                    Err(Fatal::ReadWouldBlock)
                } else if v.len() > room {
                    Err(Fatal::Overrun)
                } else {
                    let mut slot = Slot::Idle;
                    core::mem::swap(&mut self.slot, &mut slot);
                    match slot {
                        Slot::PendingRead(mut buf) => {
                            buf.write_slice(v.as_slice());
                            self.slot = Slot::PendingWrite(buf.flip());
                        },
                        _ => {},
                    }
                    self.interest = Interest::writable();
                    Ok(Registration { token: self.token, interest: self.interest, opts: PollOpt::edge() })
                }
            },
            ReadOutcome::Error => {
                self.slot = Slot::Idle;
                self.interest = Interest::none();
                Ok(Registration { token: self.token, interest: self.interest, opts: PollOpt::edge() })
            },
        }
    }

    /// Handles a writable event, given how the one write of the pending
    /// output ended. A blocked write keeps the buffer and the writable
    /// subscription; a write that made progress hands the buffer, emptied,
    /// back to the read side and turns the subscription to readable; an error
    /// drops the buffer and the subscription, for good.
    pub fn writable(&mut self, outcome: WriteOutcome) -> (r: Registration)
        requires
            old(self)@.wf(),
            old(self)@.echoing_response(),
        ensures
            final(self)@ == old(self)@.after_writable(outcome),
            r == old(self)@.writable_result(outcome),
            final(self)@.wf(),
    {
        match outcome {
            WriteOutcome::WouldBlock => {
                self.interest = Interest::writable();
            },
            WriteOutcome::Wrote(n) => {
                let mut slot = Slot::Idle;
                core::mem::swap(&mut self.slot, &mut slot);
                match slot {
                    Slot::PendingWrite(mut buf) => {
                        buf.advance(n);
                        self.slot = Slot::PendingRead(buf.flip());
                    },
                    _ => {},
                }
                self.interest = Interest::readable();
            },
            WriteOutcome::Error => {
                self.slot = Slot::Idle;
                self.interest = Interest::none();
            },
        }
        Registration { token: self.token, interest: self.interest, opts: PollOpt::edge_oneshot() }
    }
}

/// While a connection is active its subscription is exactly {readable} or
/// exactly {writable}: never both, never empty.
pub proof fn lemma_active_interest(c: ConnView)
    requires
        c.wf(),
        c.active(),
    ensures
        c.awaiting_request() ==> c.interest == Interest::spec_readable(),
        c.echoing_response() ==> c.interest == Interest::spec_writable(),
        c.interest.readable != c.interest.writable,
        !c.interest.hup,
{
}

/// A readable event keeps the connection well formed, and a request that is
/// taken turns the subscription from {readable} to {writable}.
pub proof fn lemma_readable_turns(c: ConnView, outcome: ReadOutcome)
    requires
        c.wf(),
        c.awaiting_request(),
    ensures
        c.after_readable(outcome).wf(),
        c.interest == Interest::spec_readable(),
        c.takes(outcome) ==> c.after_readable(outcome).echoing_response()
            && c.after_readable(outcome).interest == Interest::spec_writable()
            && c.after_readable(outcome).pending_output() == outcome.bytes(),
        outcome is Error ==> c.after_readable(outcome).inert() && c.after_readable(
            outcome,
        ).interest == Interest::spec_none(),
        !c.takes(outcome) && !(outcome is Error) ==> c.after_readable(outcome) == c,
{
    if c.takes(outcome) {
        let b = c.slot->PendingRead_0;
        assert(b.content + outcome.bytes().take(outcome.bytes().len() as int) =~= outcome.bytes());
        assert(outcome.bytes().skip(0) =~= outcome.bytes());
    }
}

/// A writable event keeps the connection well formed, and a write that made
/// progress turns the subscription from {writable} to {readable}.
pub proof fn lemma_writable_turns(c: ConnView, outcome: WriteOutcome)
    requires
        c.wf(),
        c.echoing_response(),
    ensures
        c.after_writable(outcome).wf(),
        c.interest == Interest::spec_writable(),
        outcome is Wrote ==> c.after_writable(outcome).awaiting_request()
            && c.after_writable(outcome).interest == Interest::spec_readable(),
        outcome is WouldBlock ==> c.after_writable(outcome) == c,
        outcome is Error ==> c.after_writable(outcome).inert() && c.after_writable(
            outcome,
        ).interest == Interest::spec_none(),
{
}

/// Any number of blocked writes leaves a connection that flushes a response
/// as it was: the bytes to write back are neither lost nor repeated.
pub proof fn lemma_blocked_writes_keep(c: ConnView, n: nat)
    requires
        c.wf(),
        c.echoing_response(),
    ensures
        c.after_blocked_writes(n) == c,
        c.after_blocked_writes(n).pending_output() == c.pending_output(),
    decreases n,
{
    if n > 0 {
        lemma_writable_turns(c, WriteOutcome::WouldBlock);
        lemma_blocked_writes_keep(c, (n - 1) as nat);
    }
}

/// A request that was taken is what waits to be written back after any
/// number of blocked writes.
pub proof fn lemma_echo_survives_blocking(c: ConnView, outcome: ReadOutcome, n: nat)
    requires
        c.wf(),
        c.awaiting_request(),
        c.takes(outcome),
    ensures
        c.after_readable(outcome).after_blocked_writes(n).pending_output() == outcome.bytes(),
{
    lemma_readable_turns(c, outcome);
    lemma_blocked_writes_keep(c.after_readable(outcome), n);
}

/// A connection that a socket error has stopped stays stopped: it holds no
/// buffer for either direction, so that neither handler can be entered, and
/// every event handed to it through its transitions leaves it as it is, with
/// an empty subscription.
pub proof fn lemma_inert_is_final(c: ConnView, read: ReadOutcome, write: WriteOutcome)
    requires
        c.wf(),
        c.inert(),
    ensures
        !c.active(),
        c.interest == Interest::spec_none(),
        c.read_room() == 0,
        c.pending_output() == Seq::<u8>::empty(),
        c.after_readable(read) == c,
        c.after_writable(write) == c,
{
}

} // verus!
