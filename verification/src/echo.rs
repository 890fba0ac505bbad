//! The listener and the dispatcher that routes each readiness event by its
//! token.

use vstd::prelude::*;
use crate::client::{
    lemma_done_is_final, lemma_fault_free_is_prefix, lemma_shutdown_when_exhausted, views,
    ClientView, EchoClient,
};
use crate::conn::{lemma_readable_turns, ConnView, EchoConn};
use crate::error::{Fatal, ReadOutcome, WriteOutcome};
use crate::reactor::{Action, Interest, PollOpt, Registration, Token, CLIENT, FIRST_CONN, SERVER};
use crate::table::{lemma_insert_all_extends, lemma_tokens_unique, Slab, TableView};

verus! {

/// The accepting side: the table of the connections accepted so far.
#[derive(Debug)]
pub struct EchoServer {
    pub conns: Slab,
}

impl View for EchoServer {
    type V = TableView;

    open spec fn view(&self) -> TableView {
        self.conns@
    }
}

/// The table of a server: well formed, and its tokens start after those of
/// the listener and the harness.
pub open spec fn serving(t: TableView) -> bool {
    t.wf() && t.first == FIRST_CONN
}

impl EchoServer {
    /// A server that has accepted nothing yet.
    pub fn new() -> (r: EchoServer)
        ensures
            r@ == TableView::empty(FIRST_CONN as nat),
            serving(r@),
    {
        EchoServer { conns: Slab::new_starting_at(Token(FIRST_CONN)) }
    }

    /// Handles a readable event for the listener, given how the one accept
    /// ended. An accepted connection enters the table, subscribed to
    /// readable, and is to be registered under its new token, the lowest
    /// that is free; an accept that found nothing pending, or failed, is
    /// fatal. The table grows as long as the next token fits the machine.
    pub fn accept(&mut self, outcome: ReadOutcome) -> (r: Result<Registration, Fatal>)
        requires
            serving(old(self)@),
            outcome is Accepted ==> old(self)@.has_room(),
        ensures
            serving(final(self)@),
            final(self)@ == old(self)@.after_accept(outcome),
            r == old(self)@.accept_result(outcome),
    {
        match outcome {
            ReadOutcome::WouldBlock => Err(Fatal::AcceptWouldBlock),
            ReadOutcome::Error => Err(Fatal::AcceptFailed),
            ReadOutcome::Data(_) => Err(Fatal::UnexpectedOutcome),
            ReadOutcome::Accepted => {
                let tok = self.conns.insert(EchoConn::new());
                Ok(
                    Registration {
                        token: tok,
                        interest: Interest::readable(),
                        opts: PollOpt::edge_oneshot(),
                    },
                )
            },
        }
    }

    /// Hands a readable event to the connection that `tok` denotes.
    pub fn conn_readable(&mut self, tok: Token, outcome: ReadOutcome) -> (r: Result<
        Registration,
        Fatal,
    >)
        requires
            serving(old(self)@),
        ensures
            serving(final(self)@),
            final(self)@ == old(self)@.after_readable(tok, outcome),
            r == old(self)@.readable_result(tok, outcome),
    {
        self.conns.readable(tok, outcome)
    }

    /// Hands a writable event to the connection that `tok` denotes.
    pub fn conn_writable(&mut self, tok: Token, outcome: WriteOutcome) -> (r: Result<
        Registration,
        Fatal,
    >)
        requires
            serving(old(self)@),
        ensures
            serving(final(self)@),
            final(self)@ == old(self)@.after_writable(tok, outcome),
            r == old(self)@.writable_result(tok, outcome),
    {
        self.conns.writable(tok, outcome)
    }

    /// The connection that `tok` denotes, to work on in place.
    pub fn conn(&mut self, tok: Token) -> (r: &mut EchoConn)
        requires
            serving(old(self)@),
            old(self)@.contains(tok),
        ensures
            r@ == old(self)@.entry(tok),
            final(self)@ =~= old(self)@.replace(tok, final(r)@),
    {
        self.conns.get_mut(tok)
    }
}

/// What the whole system is: the table of the server and the harness.
pub struct EchoView {
    pub server: TableView,
    pub client: ClientView,
}

/// Wraps the registration of a handler that arms its socket again.
pub open spec fn rearm(r: Result<Registration, Fatal>) -> Result<Action, Fatal> {
    match r {
        Ok(reg) => Ok(Action::Reregister(reg)),
        Err(e) => Err(e),
    }
}

/// Wraps the registration of a socket that was just accepted.
pub open spec fn enrol(r: Result<Registration, Fatal>) -> Result<Action, Fatal> {
    match r {
        Ok(reg) => Ok(Action::Register(reg)),
        Err(e) => Err(e),
    }
}

impl EchoView {
    /// The table is well formed and gives out no token of the listener or of
    /// the harness.
    pub open spec fn wf(self) -> bool {
        serving(self.server)
    }

    /// Whether the readable event can be handled: an accepted connection
    /// needs a token that fits the machine.
    pub open spec fn admits(self, token: Token, outcome: ReadOutcome) -> bool {
        token.0 == SERVER && outcome is Accepted ==> self.server.has_room()
    }

    /// The system after a readable event for `token` whose accept or read
    /// ended in `outcome`.
    pub open spec fn after_readable(self, token: Token, outcome: ReadOutcome) -> EchoView {
        if token.0 == SERVER {
            EchoView { server: self.server.after_accept(outcome), ..self }
        } else if token.0 == CLIENT {
            EchoView { client: self.client.after_readable(outcome), ..self }
        } else {
            EchoView { server: self.server.after_readable(token, outcome), ..self }
        }
    }

    /// What a readable event for `token` whose accept or read ended in
    /// `outcome` answers.
    pub open spec fn readable_result(self, token: Token, outcome: ReadOutcome) -> Result<
        Action,
        Fatal,
    > {
        if token.0 == SERVER {
            enrol(self.server.accept_result(outcome))
        } else if token.0 == CLIENT {
            self.client.readable_result(outcome)
        } else {
            rearm(self.server.readable_result(token, outcome))
        }
    }

    /// The system after a writable event for `token` whose write ended in
    /// `outcome`.
    pub open spec fn after_writable(self, token: Token, outcome: WriteOutcome) -> EchoView {
        if token.0 == SERVER {
            self
        } else if token.0 == CLIENT {
            EchoView { client: self.client.after_writable(outcome), ..self }
        } else {
            EchoView { server: self.server.after_writable(token, outcome), ..self }
        }
    }

    /// What a writable event for `token` whose write ended in `outcome`
    /// answers.
    pub open spec fn writable_result(self, token: Token, outcome: WriteOutcome) -> Result<
        Action,
        Fatal,
    > {
        if token.0 == SERVER {
            Err(Fatal::ListenerWritable)
        } else if token.0 == CLIENT {
            Ok(Action::Reregister(self.client.writable_result(outcome)))
        } else {
            rearm(self.server.writable_result(token, outcome))
        }
    }
}

/// The echo server together with the harness that drives it: every readiness
/// event goes to exactly one of the listener, the harness and the accepted
/// connections, by its token.
#[derive(Debug)]
pub struct Echo {
    pub server: EchoServer,
    pub client: EchoClient,
}

impl View for Echo {
    type V = EchoView;

    open spec fn view(&self) -> EchoView {
        EchoView { server: self.server@, client: self.client@ }
    }
}

impl Echo {
    pub open spec fn wf(&self) -> bool {
        self@.wf() && self.client.wf()
    }

    /// A server without connections and a harness about to send the first
    /// message of `msgs`.
    pub fn new(msgs: Vec<Vec<u8>>) -> (r: Echo)
        requires
            msgs@.len() > 0,
        ensures
            r.wf(),
            r@.server == TableView::empty(FIRST_CONN as nat),
            r@.client == ClientView::start(Token(CLIENT), views(msgs@)),
    {
        Echo { server: EchoServer::new(), client: EchoClient::new(Token(CLIENT), msgs) }
    }

    /// Routes a readable event: the listener accepts, the harness verifies
    /// the echo, any other token is looked up in the table.
    pub fn readable(&mut self, token: Token, outcome: ReadOutcome) -> (r: Result<Action, Fatal>)
        requires
            old(self).wf(),
            old(self)@.admits(token, outcome),
        ensures
            final(self).wf(),
            final(self)@ == old(self)@.after_readable(token, outcome),
            r == old(self)@.readable_result(token, outcome),
    {
        if token.0 == SERVER {
            match self.server.accept(outcome) {
                Ok(reg) => Ok(Action::Register(reg)),
                Err(e) => Err(e),
            }
        } else if token.0 == CLIENT {
            self.client.readable(outcome)
        } else {
            match self.server.conn_readable(token, outcome) {
                Ok(reg) => Ok(Action::Reregister(reg)),
                Err(e) => Err(e),
            }
        }
    }

    /// Routes a writable event: the harness sends, any other token is looked
    /// up in the table; the listener never asked for one.
    pub fn writable(&mut self, token: Token, outcome: WriteOutcome) -> (r: Result<Action, Fatal>)
        requires
            old(self).wf(),
        ensures
            final(self).wf(),
            final(self)@ == old(self)@.after_writable(token, outcome),
            r == old(self)@.writable_result(token, outcome),
    {
        if token.0 == SERVER {
            Err(Fatal::ListenerWritable)
        } else if token.0 == CLIENT {
            Ok(Action::Reregister(self.client.writable(outcome)))
        } else {
            match self.server.conn_writable(token, outcome) {
                Ok(reg) => Ok(Action::Reregister(reg)),
                Err(e) => Err(e),
            }
        }
    }
}

/// An event reaches exactly one state machine: the one its token names. The
/// harness is touched by no event but its own, the table by none of the
/// harness's, a connection by none for another token, and a writable event
/// for the listener changes nothing at all.
pub proof fn lemma_dispatch_is_local(
    e: EchoView,
    token: Token,
    read: ReadOutcome,
    write: WriteOutcome,
    other: Token,
)
    requires
        e.wf(),
        e.admits(token, read),
    ensures
        e.after_readable(token, read).wf(),
        e.after_writable(token, write).wf(),
        token.0 != CLIENT ==> e.after_readable(token, read).client == e.client && e.after_writable(
            token,
            write,
        ).client == e.client,
        token.0 == CLIENT ==> e.after_readable(token, read).server == e.server && e.after_writable(
            token,
            write,
        ).server == e.server,
        token.0 == SERVER ==> e.after_writable(token, write) == e,
        other != token && e.server.contains(other) ==> {
            &&& e.after_readable(token, read).server.contains(other)
            &&& e.after_readable(token, read).server.entry(other) == e.server.entry(other)
            &&& e.after_writable(token, write).server.contains(other)
            &&& e.after_writable(token, write).server.entry(other) == e.server.entry(other)
        },
{
    if e.server.contains(token) {
        let c = e.server.entry(token);
        assert(c.wf());
        if c.awaiting_request() {
            lemma_readable_turns(c, read);
        }
    }
}

/// A request that a connection of the table takes is what that connection
/// holds to write back, under the same token.
pub proof fn lemma_request_is_echoed(e: EchoView, token: Token, read: ReadOutcome)
    requires
        e.wf(),
        token.0 != SERVER,
        token.0 != CLIENT,
        e.server.contains(token),
        e.server.entry(token).awaiting_request(),
        e.server.entry(token).takes(read),
    ensures
        e.after_readable(token, read).server.contains(token),
        e.after_readable(token, read).server.entry(token).pending_output() == read.bytes(),
        e.after_readable(token, read).server.entry(token).token == token,
        e.readable_result(token, read) == Ok::<Action, Fatal>(
            Action::Reregister(
                Registration {
                    token,
                    interest: Interest::spec_writable(),
                    opts: PollOpt::spec_edge(),
                },
            ),
        ),
{
    let c = e.server.entry(token);
    assert(c.wf());
    lemma_readable_turns(c, read);
}

/// Only the harness ever asks for the run loop to stop, and only on the read
/// that completes the echo of its last message; once it is done no event
/// makes it ask again.
pub proof fn lemma_only_the_harness_stops(
    e: EchoView,
    token: Token,
    read: ReadOutcome,
    write: WriteOutcome,
)
    ensures
        e.writable_result(token, write) != Ok::<Action, Fatal>(Action::Shutdown),
        e.readable_result(token, read) == Ok::<Action, Fatal>(Action::Shutdown) <==> token.0
            == CLIENT && e.client.completes(read) && e.client.queue.len() == 0,
        e.readable_result(token, read) == Ok::<Action, Fatal>(Action::Shutdown) ==> e.after_readable(
            token,
            read,
        ).client.done(),
        e.client.done() ==> e.readable_result(token, read) != Ok::<Action, Fatal>(Action::Shutdown)
            && e.after_readable(token, read).client.done() && e.after_writable(
            token,
            write,
        ).client.done(),
{
    lemma_shutdown_when_exhausted(e.client, read);
    if e.client.done() {
        lemma_done_is_final(e.client, read, write);
    }
}

/// Over a transport that delivers bytes as they were sent, a round trip
/// succeeds: when a connection reads what the harness expects back, it holds
/// exactly those bytes to write back, and when the harness reads them, it
/// takes the echo as complete.
pub proof fn lemma_round_trip(e: EchoView, token: Token, request: ReadOutcome, echo: ReadOutcome)
    requires
        e.wf(),
        token.0 != SERVER,
        token.0 != CLIENT,
        e.server.contains(token),
        e.server.entry(token).awaiting_request(),
        0 < e.client.rx.len() <= e.server.entry(token).read_room(),
        request is Data,
        request.bytes() == e.client.rx,
        echo is Data,
        echo.bytes() == e.after_readable(token, request).server.entry(token).pending_output(),
    ensures
        echo.bytes() == e.client.rx,
        e.after_readable(token, request).client.completes(echo),
        e.after_readable(token, request).readable_result(Token(CLIENT), echo) is Ok,
{
    lemma_request_is_echoed(e, token, request);
    lemma_fault_free_is_prefix(echo.bytes(), e.client.rx);
    assert(e.client.rx.take(e.client.rx.len() as int) =~= e.client.rx);
}

/// An accepted connection always enters the table: the answer is the
/// registration of its token for readable, edge-triggered and one-shot; the
/// token is the lowest free one, was given to no connection before, and is
/// neither the listener's nor the harness's; the table grows by exactly this
/// connection, and the harness is left alone.
pub proof fn lemma_accept_grows_table(e: EchoView, accepted: ReadOutcome)
    requires
        e.wf(),
        accepted is Accepted,
        e.server.has_room(),
    ensures
        e.readable_result(Token(SERVER), accepted) == Ok::<Action, Fatal>(
            Action::Register(
                Registration {
                    token: e.server.next_token(),
                    interest: Interest::spec_readable(),
                    opts: PollOpt::spec_edge_oneshot(),
                },
            ),
        ),
        e.server.next_token().0 != SERVER,
        e.server.next_token().0 != CLIENT,
        !e.server.contains(e.server.next_token()),
        e.after_readable(Token(SERVER), accepted).wf(),
        e.after_readable(Token(SERVER), accepted).client == e.client,
        e.after_readable(Token(SERVER), accepted).server.entries.len() == e.server.entries.len()
            + 1,
        e.after_readable(Token(SERVER), accepted).server.contains(e.server.next_token()),
        e.after_readable(Token(SERVER), accepted).server.entry(e.server.next_token()) == (ConnView {
            token: e.server.next_token(),
            ..ConnView::fresh()
        }),
        forall|tok: Token|
            e.server.contains(tok) ==> e.after_readable(Token(SERVER), accepted).server.contains(
                tok,
            ) && e.after_readable(Token(SERVER), accepted).server.entry(tok) == e.server.entry(tok),
{
    let cs = seq![ConnView::fresh()];
    assert(cs.drop_last() =~= Seq::<ConnView>::empty());
    assert(e.server.insert_all(cs.drop_last()) == e.server);
    assert(e.server.insert_all(cs) == e.server.insert(ConnView::fresh()));
    assert(cs.take(0) =~= Seq::<ConnView>::empty());
    assert(e.server.assigned(cs, 0) == e.server.next_token());
    lemma_tokens_unique(e.server, cs);
}

/// However many connections a server takes in, one after the other, their
/// tokens differ from one another, from every token given before and from
/// the tokens of the listener and of the harness, and each resolves to the
/// connection it was given to.
pub proof fn lemma_accepted_tokens_unique(e: EchoView, cs: Seq<ConnView>)
    requires
        e.wf(),
        e.server.first + e.server.entries.len() + cs.len() <= usize::MAX,
        forall|k: int| 0 <= k < cs.len() ==> (#[trigger] cs[k]).wf(),
    ensures
        serving(e.server.insert_all(cs)),
        forall|i: int|
            0 <= i < cs.len() ==> (#[trigger] e.server.assigned(cs, i)).0 != SERVER
                && e.server.assigned(cs, i).0 != CLIENT && !e.server.contains(
                e.server.assigned(cs, i),
            ),
        forall|i: int, j: int|
            0 <= i < j < cs.len() ==> e.server.assigned(cs, i) != e.server.assigned(cs, j),
        forall|i: int|
            0 <= i < cs.len() ==> e.server.insert_all(cs).contains(
                #[trigger] e.server.assigned(cs, i),
            ) && e.server.insert_all(cs).entry(e.server.assigned(cs, i)) == (ConnView {
                token: e.server.assigned(cs, i),
                ..cs[i]
            }),
{
    lemma_tokens_unique(e.server, cs);
    lemma_insert_all_extends(e.server, cs);
}

} // verus!
