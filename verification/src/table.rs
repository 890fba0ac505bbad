//! The table that gives each accepted connection a token of its own.

use vstd::prelude::*;
use crate::conn::{ConnView, EchoConn};
use crate::error::{Fatal, ReadOutcome, WriteOutcome};
use crate::reactor::{Interest, PollOpt, Registration, Token};

verus! {

/// What a connection table is: the connections it holds, in the order of
/// their tokens, the first of which is `first`. It grows with every
/// connection it takes in.
#[verifier::ext_equal]
pub struct TableView {
    pub first: nat,
    pub entries: Seq<ConnView>,
}

impl TableView {
    /// Every token given so far fits the machine, and each connection is well
    /// formed and knows the token it is stored under.
    pub open spec fn wf(self) -> bool {
        &&& self.first + self.entries.len() <= usize::MAX
        &&& forall|i: int|
            0 <= i < self.entries.len() ==> (#[trigger] self.entries[i]).wf() && self.entries[i].token
                == Token((self.first + i) as usize)
    }

    pub open spec fn empty(first: nat) -> TableView {
        TableView { first, entries: Seq::empty() }
    }

    pub open spec fn contains(self, tok: Token) -> bool {
        self.first <= tok.0 < self.first + self.entries.len()
    }

    /// The connection that `tok` denotes.
    pub open spec fn entry(self, tok: Token) -> ConnView
        recommends
            self.contains(tok),
    {
        self.entries[tok.0 - self.first]
    }

    /// The next token still fits the machine.
    pub open spec fn has_room(self) -> bool {
        self.first + self.entries.len() < usize::MAX
    }

    /// The lowest token that denotes no connection.
    pub open spec fn next_token(self) -> Token {
        Token((self.first + self.entries.len()) as usize)
    }

    /// The table after it took in `c` under the lowest free token.
    pub open spec fn insert(self, c: ConnView) -> TableView {
        TableView { entries: self.entries.push(ConnView { token: self.next_token(), ..c }), ..self }
    }

    /// The table with `c` in place of the connection that `tok` denotes.
    pub open spec fn replace(self, tok: Token, c: ConnView) -> TableView {
        TableView { entries: self.entries.update(tok.0 - self.first, c), ..self }
    }

    /// The table after it took in each connection of `cs` in turn.
    pub open spec fn insert_all(self, cs: Seq<ConnView>) -> TableView
        decreases cs.len(),
    {
        if cs.len() == 0 {
            self
        } else {
            self.insert_all(cs.drop_last()).insert(cs.last())
        }
    }

    /// The token under which the `i`-th connection of `cs` is taken in.
    pub open spec fn assigned(self, cs: Seq<ConnView>, i: int) -> Token {
        self.insert_all(cs.take(i)).next_token()
    }

    /// The table after a readable event for the listener whose accept ended
    /// in `outcome`.
    pub open spec fn after_accept(self, outcome: ReadOutcome) -> TableView {
        if outcome is Accepted {
            self.insert(ConnView::fresh())
        } else {
            self
        }
    }

    /// What a readable event for the listener whose accept ended in `outcome`
    /// answers.
    pub open spec fn accept_result(self, outcome: ReadOutcome) -> Result<Registration, Fatal> {
        match outcome {
            ReadOutcome::WouldBlock => Err(Fatal::AcceptWouldBlock),
            ReadOutcome::Error => Err(Fatal::AcceptFailed),
            ReadOutcome::Data(_) => Err(Fatal::UnexpectedOutcome),
            ReadOutcome::Accepted => Ok(
                Registration {
                    token: self.next_token(),
                    interest: Interest::spec_readable(),
                    opts: PollOpt::spec_edge_oneshot(),
                },
            ),
        }
    }

    /// The table after a readable event for `tok` whose read ended in
    /// `outcome`.
    pub open spec fn after_readable(self, tok: Token, outcome: ReadOutcome) -> TableView {
        if self.contains(tok) && self.entry(tok).awaiting_request() {
            self.replace(tok, self.entry(tok).after_readable(outcome))
        } else {
            self
        }
    }

    /// What a readable event for `tok` whose read ended in `outcome` answers.
    pub open spec fn readable_result(self, tok: Token, outcome: ReadOutcome) -> Result<
        Registration,
        Fatal,
    > {
        if !self.contains(tok) {
            Err(Fatal::UnknownToken)
        } else if !self.entry(tok).awaiting_request() {
            Err(Fatal::NoBuffer)
        } else {
            self.entry(tok).readable_result(outcome)
        }
    }

    /// The table after a writable event for `tok` whose write ended in
    /// `outcome`.
    pub open spec fn after_writable(self, tok: Token, outcome: WriteOutcome) -> TableView {
        if self.contains(tok) && self.entry(tok).echoing_response() {
            self.replace(tok, self.entry(tok).after_writable(outcome))
        } else {
            self
        }
    }

    /// What a writable event for `tok` whose write ended in `outcome` answers.
    pub open spec fn writable_result(self, tok: Token, outcome: WriteOutcome) -> Result<
        Registration,
        Fatal,
    > {
        if !self.contains(tok) {
            Err(Fatal::UnknownToken)
        } else if !self.entry(tok).echoing_response() {
            Err(Fatal::NoBuffer)
        } else {
            Ok(self.entry(tok).writable_result(outcome))
        }
    }
}

/// A growing table of connections, each under a token of its own that it
/// keeps.
#[derive(Debug)]
pub struct Slab {
    pub first: usize,
    pub conns: Vec<EchoConn>,
}

impl View for Slab {
    type V = TableView;

    open spec fn view(&self) -> TableView {
        TableView {
            first: self.first as nat,
            entries: Seq::new(self.conns@.len(), |i: int| self.conns@[i]@),
        }
    }
}

impl Slab {
    /// An empty table whose tokens start at `first`.
    pub fn new_starting_at(first: Token) -> (r: Slab)
        ensures
            r@ == TableView::empty(first.0 as nat),
            r@.wf(),
    {
        let r = Slab { first: first.0, conns: Vec::new() };
        proof {
            assert(r@.entries =~= Seq::empty());
        }
        r
    }

    /// The number of connections held.
    pub fn count(&self) -> (r: usize)
        ensures
            r == self@.entries.len(),
    {
        self.conns.len()
    }

    /// Whether `tok` denotes a connection of the table.
    pub fn contains(&self, tok: Token) -> (r: bool)
        requires
            self@.wf(),
        ensures
            r == self@.contains(tok),
    {
        self.first <= tok.0 && tok.0 - self.first < self.conns.len()
    }

    /// The connection that `tok` denotes, if it denotes one.
    pub fn get(&self, tok: Token) -> (r: Option<&EchoConn>)
        requires
            self@.wf(),
        ensures
            r.is_some() == self@.contains(tok),
            r.is_some() ==> r.unwrap()@ == self@.entry(tok),
    {
        if self.contains(tok) {
            Some(&self.conns[tok.0 - self.first])
        } else {
            None
        }
    }

    /// Takes in `conn` under the lowest free token, which the connection is
    /// told and which is returned.
    pub fn insert(&mut self, conn: EchoConn) -> (tok: Token)
        requires
            old(self)@.wf(),
            old(self)@.has_room(),
            conn@.wf(),
        ensures
            final(self)@.wf(),
            tok == old(self)@.next_token(),
            final(self)@ == old(self)@.insert(conn@),
    {
        let tok = Token(self.first + self.conns.len());
        let mut conn = conn;
        conn.token = tok;
        self.conns.push(conn);
        proof {
            assert(final(self)@.entries =~= old(self)@.insert(conn@).entries);
        }
        tok
    }

    /// The connection that `tok` denotes, to work on in place.
    pub fn get_mut(&mut self, tok: Token) -> (r: &mut EchoConn)
        requires
            old(self)@.wf(),
            old(self)@.contains(tok),
        ensures
            r@ == old(self)@.entry(tok),
            final(self)@ =~= old(self)@.replace(tok, final(r)@),
    {
        let idx: usize = tok.0 - self.first;
        &mut self.conns[idx]
    }

    /// Hands a readable event to the connection that `tok` denotes.
    pub fn readable(&mut self, tok: Token, outcome: ReadOutcome) -> (r: Result<Registration, Fatal>)
        requires
            old(self)@.wf(),
        ensures
            final(self)@.wf(),
            final(self)@ == old(self)@.after_readable(tok, outcome),
            r == old(self)@.readable_result(tok, outcome),
    {
        if !self.contains(tok) {
            return Err(Fatal::UnknownToken);
        }
        let idx: usize = tok.0 - self.first;
        if !self.conns[idx].can_read() {
            return Err(Fatal::NoBuffer);
        }
        assert(self@.entries[idx as int].wf());
        let conn = &mut self.conns[idx];
        let r = conn.readable(outcome);
        proof {
            assert(self@.entries =~= old(self)@.after_readable(tok, outcome).entries);
        }
        r
    }

    /// Hands a writable event to the connection that `tok` denotes.
    pub fn writable(&mut self, tok: Token, outcome: WriteOutcome) -> (r: Result<Registration, Fatal>)
        requires
            old(self)@.wf(),
        ensures
            final(self)@.wf(),
            final(self)@ == old(self)@.after_writable(tok, outcome),
            r == old(self)@.writable_result(tok, outcome),
    {
        if !self.contains(tok) {
            return Err(Fatal::UnknownToken);
        }
        let idx: usize = tok.0 - self.first;
        if !self.conns[idx].can_write() {
            return Err(Fatal::NoBuffer);
        }
        assert(self@.entries[idx as int].wf());
        let conn = &mut self.conns[idx];
        let r = conn.writable(outcome);
        proof {
            assert(self@.entries =~= old(self)@.after_writable(tok, outcome).entries);
        }
        Ok(r)
    }
}

/// Taking in `cs` adds one entry for each and changes none that was there.
pub proof fn lemma_insert_all_extends(t: TableView, cs: Seq<ConnView>)
    ensures
        t.insert_all(cs).first == t.first,
        t.insert_all(cs).entries.len() == t.entries.len() + cs.len(),
        forall|k: int|
            0 <= k < t.entries.len() ==> #[trigger] t.insert_all(cs).entries[k] == t.entries[k],
        forall|k: int|
            0 <= k < cs.len() ==> #[trigger] t.insert_all(cs).entries[t.entries.len() + k]
                == (ConnView { token: Token((t.first + t.entries.len() + k) as usize), ..cs[k] }),
    decreases cs.len(),
{
    if cs.len() > 0 {
        lemma_insert_all_extends(t, cs.drop_last());
    }
}

/// Connections taken in one after the other get tokens that differ from one
/// another and from every token given before, none of them below the first
/// token of the table, and each token resolves to the connection it was given
/// to.
pub proof fn lemma_tokens_unique(t: TableView, cs: Seq<ConnView>)
    requires
        t.wf(),
        t.first + t.entries.len() + cs.len() <= usize::MAX,
        forall|k: int| 0 <= k < cs.len() ==> (#[trigger] cs[k]).wf(),
    ensures
        t.insert_all(cs).wf(),
        forall|i: int| 0 <= i < cs.len() ==> (#[trigger] t.assigned(cs, i)).0 >= t.first,
        forall|i: int, j: int|
            0 <= i < j < cs.len() ==> t.assigned(cs, i) != t.assigned(cs, j),
        forall|i: int|
            0 <= i < cs.len() ==> !t.contains(#[trigger] t.assigned(cs, i)) && t.insert_all(
                cs,
            ).contains(t.assigned(cs, i)) && t.insert_all(cs).entry(t.assigned(cs, i)) == (ConnView {
                token: t.assigned(cs, i),
                ..cs[i]
            }),
        forall|tok: Token|
            t.contains(tok) ==> t.insert_all(cs).contains(tok) && t.insert_all(cs).entry(tok)
                == t.entry(tok),
{
    lemma_insert_all_extends(t, cs);
    assert forall|i: int| 0 <= i < cs.len() implies (#[trigger] t.assigned(cs, i)) == Token(
        (t.first + t.entries.len() + i) as usize,
    ) by {
        lemma_insert_all_extends(t, cs.take(i));
    }
    let t2 = t.insert_all(cs);
    assert forall|i: int| 0 <= i < t2.entries.len() implies (#[trigger] t2.entries[i]).wf()
        && t2.entries[i].token == Token((t2.first + i) as usize) by {
        if i >= t.entries.len() {
            let k = i - t.entries.len();
            assert(t2.entries[t.entries.len() + k] == (ConnView {
                token: Token((t.first + t.entries.len() + k) as usize),
                ..cs[k]
            }));
            assert(cs[k].wf());
        } else {
            assert(t2.entries[i] == t.entries[i]);
        }
    }
    assert forall|i: int| 0 <= i < cs.len() implies t2.entry(#[trigger] t.assigned(cs, i)) == (
    ConnView { token: t.assigned(cs, i), ..cs[i] }) by {
        assert(t2.entries[t.entries.len() + i] == (ConnView {
            token: Token((t.first + t.entries.len() + i) as usize),
            ..cs[i]
        }));
    }
}

} // verus!
