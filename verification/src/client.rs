//! The harness: sends its messages one at a time and holds each echo against
//! what it sent.

use vstd::prelude::*;
use crate::error::{Fatal, ReadOutcome, WriteOutcome};
use crate::reactor::{Action, Interest, PollOpt, Registration, Token};

verus! {

/// The first fault of `actual` against `expect` at or after index `i`: a byte
/// that differs, or a byte beyond the end of `expect`.
pub open spec fn first_fault(actual: Seq<u8>, expect: Seq<u8>, i: int) -> Option<Fatal>
    decreases actual.len() - i,
{
    if i < 0 || i >= actual.len() {
        None
    } else if i >= expect.len() {
        Some(Fatal::Excess { actual: actual[i] })
    } else if actual[i] != expect[i] {
        Some(Fatal::Mismatch { actual: actual[i], expect: expect[i] })
    } else {
        first_fault(actual, expect, i + 1)
    }
}

/// What the harness is: its identity and subscription, the messages still
/// queued, and of the current message the bytes still to send and the bytes
/// still expected back.
pub struct ClientView {
    pub token: Token,
    pub interest: Interest,
    pub queue: Seq<Seq<u8>>,
    pub tx: Seq<u8>,
    pub rx: Seq<u8>,
}

impl ClientView {
    /// The harness as it starts on `msgs`.
    pub open spec fn start(token: Token, msgs: Seq<Seq<u8>>) -> ClientView
        recommends
            msgs.len() > 0,
    {
        ClientView {
            token,
            interest: Interest::spec_writable(),
            queue: msgs.skip(1),
            tx: msgs[0],
            rx: msgs[0],
        }
    }

    /// Every message was sent and its echo verified.
    pub open spec fn done(self) -> bool {
        self.queue.len() == 0 && self.rx.len() == 0
    }

    /// Whether a read outcome carries bytes that continue the expected echo.
    pub open spec fn accepts(self, outcome: ReadOutcome) -> bool {
        outcome is Data && outcome.bytes().len() > 0 && first_fault(outcome.bytes(), self.rx, 0)
            is None
    }

    /// Whether a read outcome carries all that was still expected of the echo.
    pub open spec fn completes(self, outcome: ReadOutcome) -> bool {
        self.accepts(outcome) && outcome.bytes().len() == self.rx.len()
    }

    /// The harness after it turned to the next queued message, if there is
    /// one: it is subscribed to writable and to nothing else.
    pub open spec fn after_next_msg(self) -> ClientView {
        if self.queue.len() == 0 {
            self
        } else {
            ClientView {
                queue: self.queue.skip(1),
                tx: self.queue[0],
                rx: self.queue[0],
                interest: Interest::spec_writable(),
                ..self
            }
        }
    }

    /// What turning to the next queued message answers.
    pub open spec fn next_msg_result(self) -> Action {
        if self.queue.len() == 0 {
            Action::Shutdown
        } else {
            Action::Reregister(
                Registration {
                    token: self.token,
                    interest: self.after_next_msg().interest,
                    opts: PollOpt::spec_edge_oneshot(),
                },
            )
        }
    }

    /// The harness after a readable event whose read ended in `outcome`.
    pub open spec fn after_readable(self, outcome: ReadOutcome) -> ClientView {
        if self.completes(outcome) {
            (ClientView {
                rx: Seq::empty(),
                interest: self.interest.without(Interest::spec_readable()),
                ..self
            }).after_next_msg()
        } else if self.accepts(outcome) {
            ClientView {
                rx: self.rx.skip(outcome.bytes().len() as int),
                interest: Interest::spec_readable(),
                ..self
            }
        } else if outcome is Error {
            ClientView { interest: self.interest.without(Interest::spec_readable()), ..self }
        } else {
            self
        }
    }

    /// What a readable event whose read ended in `outcome` answers.
    pub open spec fn readable_result(self, outcome: ReadOutcome) -> Result<Action, Fatal> {
        let rearm = Action::Reregister(
            Registration {
                token: self.token,
                interest: self.after_readable(outcome).interest,
                opts: PollOpt::spec_edge_oneshot(),
            },
        );
        match outcome {
            ReadOutcome::WouldBlock => Err(Fatal::ReadWouldBlock),
            ReadOutcome::Accepted => Err(Fatal::UnexpectedOutcome),
            ReadOutcome::Error => Ok(rearm),
            ReadOutcome::Data(v) => if v@.len() == 0 {
                Err(Fatal::ReadWouldBlock)
            } else if first_fault(v@, self.rx, 0) is Some {
                Err(first_fault(v@, self.rx, 0).unwrap())
            } else if self.completes(outcome) && self.queue.len() == 0 {
                Ok(Action::Shutdown)
            } else {
                Ok(rearm)
            },
        }
    }

    /// The harness after readable events whose reads ended in the outcomes
    /// of `os`, in turn.
    pub open spec fn after_reads(self, os: Seq<ReadOutcome>) -> ClientView
        decreases os.len(),
    {
        if os.len() == 0 {
            self
        } else {
            self.after_reads(os.drop_last()).after_readable(os.last())
        }
    }

    /// Each outcome of `os` carries bytes that continue the expected echo,
    /// and none of them ends it.
    pub open spec fn echo_in_progress(self, os: Seq<ReadOutcome>) -> bool
        decreases os.len(),
    {
        os.len() == 0 || {
            &&& self.echo_in_progress(os.drop_last())
            &&& self.after_reads(os.drop_last()).accepts(os.last())
            &&& !self.after_reads(os.drop_last()).completes(os.last())
        }
    }

    /// The harness after a writable event whose write ended in `outcome`.
    pub open spec fn after_writable(self, outcome: WriteOutcome) -> ClientView {
        match outcome {
            WriteOutcome::WouldBlock => ClientView {
                interest: self.interest.with(Interest::spec_writable()),
                ..self
            },
            WriteOutcome::Wrote(n) => ClientView {
                tx: if n <= self.tx.len() {
                    self.tx.skip(n as int)
                } else {
                    Seq::empty()
                },
                interest: Interest::spec_readable(),
                ..self
            },
            WriteOutcome::Error => ClientView {
                interest: self.interest.without(Interest::spec_writable()),
                ..self
            },
        }
    }

    /// What a writable event whose write ended in `outcome` answers.
    pub open spec fn writable_result(self, outcome: WriteOutcome) -> Registration {
        Registration {
            token: self.token,
            interest: self.after_writable(outcome).interest,
            opts: PollOpt::spec_edge_oneshot(),
        }
    }
}

/// The bytes that the reads of `os` delivered, in order.
pub open spec fn received(os: Seq<ReadOutcome>) -> Seq<u8>
    decreases os.len(),
{
    if os.len() == 0 {
        Seq::empty()
    } else {
        received(os.drop_last()) + os.last().bytes()
    }
}

/// The views of the messages of `msgs`, in order.
pub open spec fn views(msgs: Seq<Vec<u8>>) -> Seq<Seq<u8>> {
    Seq::new(msgs.len(), |i: int| msgs[i]@)
}

/// Sends one message at a time and expects to receive the very same bytes
/// before it sends the next.
#[derive(Debug)]
pub struct EchoClient {
    pub token: Token,
    pub interest: Interest,
    pub msgs: Vec<Vec<u8>>,
    pub current: Vec<u8>,
    pub tx_pos: usize,
    pub rx_pos: usize,
}

impl View for EchoClient {
    type V = ClientView;

    open spec fn view(&self) -> ClientView {
        ClientView {
            token: self.token,
            interest: self.interest,
            queue: views(self.msgs@),
            tx: self.current@.skip(self.tx_pos as int),
            rx: self.current@.skip(self.rx_pos as int),
        }
    }
}

impl EchoClient {
    /// Both cursors lie within the current message.
    pub open spec fn wf(&self) -> bool {
        self.tx_pos <= self.current@.len() && self.rx_pos <= self.current@.len()
    }

    /// A harness that is about to send the first message of `msgs`.
    pub fn new(tok: Token, msgs: Vec<Vec<u8>>) -> (r: EchoClient)
        requires
            msgs@.len() > 0,
        ensures
            r.wf(),
            r@ == ClientView::start(tok, views(msgs@)),
    {
        let mut msgs = msgs;
        let ghost all = msgs@;
        let curr = msgs.remove(0);
        let r = EchoClient {
            token: tok,
            interest: Interest::writable(),
            msgs,
            current: curr,
            tx_pos: 0,
            rx_pos: 0,
        };
        proof {
            assert(r@.queue =~= views(all).skip(1));
            assert(r@.tx =~= all[0]@);
            assert(r@.rx =~= all[0]@);
        }
        r
    }

    /// A copy of the bytes of the current message that are still to send.
    pub fn pending_output(&self) -> (r: Vec<u8>)
        requires
            self.wf(),
        ensures
            r@ == self@.tx,
    {
        let mut out: Vec<u8> = Vec::new();
        let mut i: usize = self.tx_pos;
        while i < self.current.len()
            invariant
                self.tx_pos <= i <= self.current@.len(),
                out@ == self.current@.subrange(self.tx_pos as int, i as int),
            decreases self.current@.len() - i,
        {
            out.push(self.current[i]);
            proof {
                assert(self.current@.subrange(self.tx_pos as int, i as int).push(
                    self.current@[i as int],
                ) =~= self.current@.subrange(self.tx_pos as int, i + 1));
            }
            i = i + 1;
        }
        proof {
            assert(self.current@.subrange(self.tx_pos as int, self.current@.len() as int)
                =~= self.current@.skip(self.tx_pos as int));
        }
        out
    }

    /// Turns to the next queued message and subscribes to writable, or asks
    /// for the run loop to stop where none is left.
    pub fn next_msg(&mut self) -> (r: Action)
        requires
            old(self).wf(),
        ensures
            final(self).wf(),
            final(self)@ == old(self)@.after_next_msg(),
            r == old(self)@.next_msg_result(),
    {
        if self.msgs.len() == 0 {
            return Action::Shutdown;
        }
        let curr = self.msgs.remove(0);
        self.current = curr;
        self.tx_pos = 0;
        self.rx_pos = 0;
        self.interest = Interest::writable();
        proof {
            assert(self@.queue =~= old(self)@.queue.skip(1));
            assert(self@.tx =~= old(self)@.queue[0]);
            assert(self@.rx =~= old(self)@.queue[0]);
        }
        Action::Reregister(
            Registration { token: self.token, interest: self.interest, opts: PollOpt::edge_oneshot() },
        )
    }

    /// Handles a readable event, given how the one read ended. The bytes are
    /// held against the expected echo one by one; the first that differs, or
    /// that comes after the echo is complete, is fatal, and so is a read
    /// without data. A complete echo turns the harness to the next message,
    /// subscribed to writable alone, or stops the run loop after the last; an
    /// incomplete one waits for more, subscribed to readable alone; an error
    /// drops the readable subscription.
    pub fn readable(&mut self, outcome: ReadOutcome) -> (r: Result<Action, Fatal>)
        requires
            old(self).wf(),
        ensures
            final(self).wf(),
            final(self)@ == old(self)@.after_readable(outcome),
            r == old(self)@.readable_result(outcome),
    {
        match outcome {
            ReadOutcome::WouldBlock => Err(Fatal::ReadWouldBlock),
            ReadOutcome::Accepted => Err(Fatal::UnexpectedOutcome),
            ReadOutcome::Error => {
                self.interest.remove(Interest::readable());
                Ok(
                    Action::Reregister(
                        Registration {
                            token: self.token,
                            interest: self.interest,
                            opts: PollOpt::edge_oneshot(),
                        },
                    ),
                )
            },
            ReadOutcome::Data(v) => {
                if v.len() == 0 {
                    return Err(Fatal::ReadWouldBlock);
                }
                let left: usize = self.current.len() - self.rx_pos;
                let ghost rx = self@.rx;
                let mut i: usize = 0;
                while i < v.len()
                    invariant
                        i <= v@.len(),
                        i <= left,
                        self.wf(),
                        self.current@.len() <= usize::MAX,
                        outcome is Data,
                        outcome.bytes() == v@,
                        v@.len() > 0,
                        left == self.current@.len() - self.rx_pos,
                        rx == self.current@.skip(self.rx_pos as int),
                        first_fault(v@, rx, 0) == first_fault(v@, rx, i as int),
                        *self == *old(self),
                    decreases v@.len() - i,
                {
                    if i >= left {
                        return Err(Fatal::Excess { actual: v[i] });
                    }
                    let actual: u8 = v[i];
                    let expect: u8 = self.current[self.rx_pos + i];
                    if actual != expect {
                        return Err(Fatal::Mismatch { actual, expect });
                    }
                    i = i + 1;
                }
                self.rx_pos = self.rx_pos + v.len();
                proof {
                    assert(self@.rx =~= rx.skip(v@.len() as int));
                }
                if self.rx_pos == self.current.len() {
                    self.interest.remove(Interest::readable());
                    proof {
                        assert(self@.rx =~= Seq::empty());
                    }
                    Ok(self.next_msg())
                } else {
                    self.interest = Interest::readable();
                    Ok(
                        Action::Reregister(
                            Registration {
                                token: self.token,
                                interest: self.interest,
                                opts: PollOpt::edge_oneshot(),
                            },
                        ),
                    )
                }
            },
        }
    }

    /// Handles a writable event, given how the one write of the current
    /// message ended. A blocked write subscribes to writable again; a write
    /// that made progress leaves the harness subscribed to readable alone; an
    /// error drops the writable subscription.
    pub fn writable(&mut self, outcome: WriteOutcome) -> (r: Registration)
        requires
            old(self).wf(),
        ensures
            final(self).wf(),
            final(self)@ == old(self)@.after_writable(outcome),
            r == old(self)@.writable_result(outcome),
    {
        match outcome {
            WriteOutcome::WouldBlock => {
                self.interest.insert(Interest::writable());
            },
            WriteOutcome::Wrote(n) => {
                let left: usize = self.current.len() - self.tx_pos;
                if n <= left {
                    self.tx_pos = self.tx_pos + n;
                } else {
                    self.tx_pos = self.current.len();
                }
                self.interest = Interest::readable();
                proof {
                    if n <= left {
                        assert(self@.tx =~= old(self)@.tx.skip(n as int));
                    } else {
                        assert(self@.tx =~= Seq::empty());
                    }
                }
            },
            WriteOutcome::Error => {
                self.interest.remove(Interest::writable());
            },
        }
        Registration { token: self.token, interest: self.interest, opts: PollOpt::edge_oneshot() }
    }
}

/// Whether byte `k` of `actual` has a counterpart in `expect` and equals it.
pub open spec fn agrees_at(actual: Seq<u8>, expect: Seq<u8>, k: int) -> bool {
    0 <= k < actual.len() && k < expect.len() && actual[k] == expect[k]
}

/// From index `i` on, bytes are free of fault exactly when each of them has a
/// counterpart in `expect` and equals it.
pub proof fn lemma_fault_free_from(actual: Seq<u8>, expect: Seq<u8>, i: int)
    requires
        0 <= i <= actual.len(),
    ensures
        first_fault(actual, expect, i) is None <==> (forall|k: int|
            i <= k < actual.len() ==> agrees_at(actual, expect, k)),
    decreases actual.len() - i,
{
    if i < actual.len() {
        lemma_fault_free_from(actual, expect, i + 1);
        if agrees_at(actual, expect, i) {
            if first_fault(actual, expect, i + 1) is None {
                assert forall|k: int| i <= k < actual.len() implies agrees_at(
                    actual,
                    expect,
                    k,
                ) by {
                    if k > i {
                        assert(i + 1 <= k);
                    }
                }
            }
        }
    }
}

/// Bytes are free of fault exactly when they are the beginning of what is
/// expected.
pub proof fn lemma_fault_free_is_prefix(actual: Seq<u8>, expect: Seq<u8>)
    ensures
        first_fault(actual, expect, 0) is None <==> actual.len() <= expect.len() && actual
            == expect.take(actual.len() as int),
{
    lemma_fault_free_from(actual, expect, 0);
    if first_fault(actual, expect, 0) is None {
        if actual.len() > 0 {
            assert(agrees_at(actual, expect, actual.len() - 1));
        }
        assert forall|k: int| 0 <= k < actual.len() implies actual[k] == expect[k] by {
            assert(agrees_at(actual, expect, k));
        }
        assert(actual =~= expect.take(actual.len() as int));
    }
    if actual.len() <= expect.len() && actual == expect.take(actual.len() as int) {
        assert forall|k: int| 0 <= k < actual.len() implies agrees_at(actual, expect, k) by {
            assert(expect.take(actual.len() as int)[k] == expect[k]);
        }
    }
}

/// While an echo is in progress the harness stays with its message: nothing
/// leaves the queue, nothing new is sent, it is subscribed to readable alone,
/// and what was received so far followed by what is still expected is the
/// echo that was expected at the start.
pub proof fn lemma_echo_in_progress(c: ClientView, os: Seq<ReadOutcome>)
    requires
        c.echo_in_progress(os),
    ensures
        c.after_reads(os).queue == c.queue,
        c.after_reads(os).tx == c.tx,
        os.len() > 0 ==> c.after_reads(os).interest == Interest::spec_readable(),
        os.len() == 0 ==> c.after_reads(os).interest == c.interest,
        c.after_reads(os).token == c.token,
        received(os) + c.after_reads(os).rx == c.rx,
    decreases os.len(),
{
    if os.len() == 0 {
        assert(received(os) + c.rx =~= c.rx);
    } else {
        lemma_echo_in_progress(c, os.drop_last());
        let s = c.after_reads(os.drop_last());
        let d = os.last().bytes();
        lemma_fault_free_is_prefix(d, s.rx);
        assert(d + s.rx.skip(d.len() as int) =~= s.rx);
        assert(received(os) + s.rx.skip(d.len() as int) =~= received(os.drop_last()) + (d
            + s.rx.skip(d.len() as int)));
    }
}

/// The harness takes an echo as complete only if the bytes received for it,
/// over however many reads, are the bytes expected, in order and in full.
pub proof fn lemma_echo_fidelity(c: ClientView, os: Seq<ReadOutcome>, last: ReadOutcome)
    requires
        c.echo_in_progress(os),
        c.after_reads(os).completes(last),
    ensures
        received(os) + last.bytes() == c.rx,
{
    lemma_echo_in_progress(c, os);
    let s = c.after_reads(os);
    lemma_fault_free_is_prefix(last.bytes(), s.rx);
    assert(s.rx.take(s.rx.len() as int) =~= s.rx);
}

/// The harness turns to the next message only on the read that completes the
/// echo of the current one; no other read and no write touches the queue or
/// replaces what is being sent.
pub proof fn lemma_sequencing(c: ClientView, read: ReadOutcome, write: WriteOutcome)
    ensures
        !c.completes(read) ==> c.after_readable(read).queue == c.queue && c.after_readable(read).tx
            == c.tx,
        c.completes(read) ==> read.bytes() == c.rx,
        c.completes(read) && c.queue.len() > 0 ==> c.after_readable(read).queue == c.queue.skip(1)
            && c.after_readable(read).tx == c.queue[0] && c.after_readable(read).rx == c.queue[0]
            && c.after_readable(read).interest == Interest::spec_writable(),
        write is Wrote ==> c.after_writable(write).interest == Interest::spec_readable(),
        c.queue.len() > 0 ==> c.after_next_msg().interest == Interest::spec_writable(),
        c.after_writable(write).queue == c.queue,
        c.after_writable(write).rx == c.rx,
{
    lemma_fault_free_is_prefix(read.bytes(), c.rx);
    if c.completes(read) {
        assert(c.rx.take(c.rx.len() as int) =~= c.rx);
    }
}

/// The harness asks for the run loop to stop exactly on the read that
/// completes the echo of the last message, and is done from then on.
pub proof fn lemma_shutdown_when_exhausted(c: ClientView, read: ReadOutcome)
    ensures
        c.readable_result(read) == Ok::<Action, Fatal>(Action::Shutdown) <==> c.completes(read)
            && c.queue.len() == 0,
        c.readable_result(read) == Ok::<Action, Fatal>(Action::Shutdown) ==> c.after_readable(
            read,
        ).done(),
{
}

/// A harness that is done stays done and never asks for the run loop to stop
/// again.
pub proof fn lemma_done_is_final(c: ClientView, read: ReadOutcome, write: WriteOutcome)
    requires
        c.done(),
    ensures
        c.readable_result(read) != Ok::<Action, Fatal>(Action::Shutdown),
        c.after_readable(read).done(),
        c.after_writable(write).done(),
{
}

} // verus!
