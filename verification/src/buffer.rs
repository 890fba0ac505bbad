//! A byte buffer with two orientations and the flip between them.

use vstd::prelude::*;

verus! {

/// The orientation of a buffer.
#[derive(Clone, Copy, Debug, PartialEq, Eq, Structural)]
pub enum Mode {
    /// Bytes are being appended.
    Write,
    /// Bytes are being drained.
    Read,
}

/// What a buffer is: its orientation, its room, the bytes written before the
/// last flip (or since it, in write mode) and how many of them were drained.
pub struct BufferView {
    pub mode: Mode,
    pub capacity: nat,
    pub content: Seq<u8>,
    pub pos: nat,
}

impl BufferView {
    pub open spec fn wf(self) -> bool {
        &&& self.content.len() <= self.capacity
        &&& self.pos <= self.content.len()
        &&& self.mode == Mode::Write ==> self.pos == 0
    }

    /// An empty buffer in write mode.
    pub open spec fn fresh(capacity: nat) -> BufferView {
        BufferView { mode: Mode::Write, capacity, content: Seq::empty(), pos: 0 }
    }

    /// The bytes still to drain.
    pub open spec fn unread(self) -> Seq<u8> {
        self.content.skip(self.pos as int)
    }

    /// In write mode the room left, in read mode the number of bytes still to
    /// drain.
    pub open spec fn remaining(self) -> nat {
        match self.mode {
            Mode::Write => (self.capacity - self.content.len()) as nat,
            Mode::Read => (self.content.len() - self.pos) as nat,
        }
    }

    /// The other orientation: what was written becomes the readable extent;
    /// a drained buffer starts empty again.
    pub open spec fn flip(self) -> BufferView {
        match self.mode {
            Mode::Write => BufferView { mode: Mode::Read, pos: 0, ..self },
            Mode::Read => BufferView::fresh(self.capacity),
        }
    }

    /// The buffer after `src` was appended, as far as there was room.
    pub open spec fn write(self, src: Seq<u8>) -> BufferView {
        let n = if src.len() <= self.remaining() { src.len() } else { self.remaining() };
        BufferView { content: self.content + src.take(n as int), ..self }
    }

    /// The buffer after up to `cnt` bytes were drained.
    pub open spec fn advance(self, cnt: nat) -> BufferView {
        let n = if cnt <= self.remaining() { cnt } else { self.remaining() };
        BufferView { pos: self.pos + n, ..self }
    }
}

/// A byte region that is either filled or drained, never both.
#[derive(Debug)]
pub struct Buffer {
    pub mode: Mode,
    pub capacity: usize,
    pub data: Vec<u8>,
    pub pos: usize,
}

impl View for Buffer {
    type V = BufferView;

    open spec fn view(&self) -> BufferView {
        BufferView {
            mode: self.mode,
            capacity: self.capacity as nat,
            content: self.data@,
            pos: self.pos as nat,
        }
    }
}

impl Buffer {
    /// An empty buffer in write mode with room for `capacity` bytes.
    pub fn with_capacity(capacity: usize) -> (r: Buffer)
        ensures
            r@ == BufferView::fresh(capacity as nat),
            r@.wf(),
    {
        Buffer { mode: Mode::Write, capacity, data: Vec::new(), pos: 0 }
    }

    pub fn mode(&self) -> (r: Mode)
        ensures
            r == self@.mode,
    {
        self.mode
    }

    pub fn capacity(&self) -> (r: usize)
        ensures
            r == self@.capacity,
    {
        self.capacity
    }

    pub fn remaining(&self) -> (r: usize)
        requires
            self@.wf(),
        ensures
            r == self@.remaining(),
    {
        match self.mode {
            Mode::Write => self.capacity - self.data.len(),
            Mode::Read => self.data.len() - self.pos,
        }
    }

    pub fn has_remaining(&self) -> (r: bool)
        requires
            self@.wf(),
        ensures
            r == (self@.remaining() > 0),
    {
        self.remaining() > 0
    }

    /// Turns a filled buffer into one to drain, and a drained one into an
    /// empty one to fill.
    pub fn flip(self) -> (r: Buffer)
        requires
            self@.wf(),
        ensures
            r@ == self@.flip(),
            r@.wf(),
    {
        match self.mode {
            Mode::Write => Buffer { mode: Mode::Read, capacity: self.capacity, data: self.data, pos: 0 },
            Mode::Read => Buffer::with_capacity(self.capacity),
        }
    }

    /// Appends as much of `src` as there is room for and returns how many
    /// bytes that was.
    pub fn write_slice(&mut self, src: &[u8]) -> (n: usize)
        requires
            old(self)@.wf(),
            old(self)@.mode == Mode::Write,
        ensures
            final(self)@ == old(self)@.write(src@),
            final(self)@.wf(),
            n == if src@.len() <= old(self)@.remaining() {
                src@.len()
            } else {
                old(self)@.remaining()
            },
    {
        let room: usize = self.capacity - self.data.len();
        let n: usize = if src.len() <= room { src.len() } else { room };
        let mut i: usize = 0;
        while i < n
            invariant
                i <= n,
                n <= src@.len(),
                self.mode == old(self).mode,
                self.capacity == old(self).capacity,
                self.pos == old(self).pos,
                self.data@ == old(self).data@ + src@.take(i as int),
                old(self).data@.len() + n <= self.capacity,
            decreases n - i,
        {
            self.data.push(src[i]);
            proof {
                assert(src@.take(i as int).push(src@[i as int]) =~= src@.take(i + 1));
                assert((old(self).data@ + src@.take(i as int)).push(src@[i as int]) =~= old(
                    self,
                ).data@ + src@.take(i + 1));
            }
            i = i + 1;
        }
        n
    }

    /// Drains one byte, if one is left.
    pub fn read_byte(&mut self) -> (r: Option<u8>)
        requires
            old(self)@.wf(),
            old(self)@.mode == Mode::Read,
        ensures
            final(self)@.wf(),
            old(self)@.remaining() == 0 ==> r.is_none() && final(self)@ == old(self)@,
            old(self)@.remaining() > 0 ==> r == Some(old(self)@.unread()[0]) && final(self)@ == old(
                self,
            )@.advance(1),
    {
        if self.pos < self.data.len() {
            let b = self.data[self.pos];
            self.pos = self.pos + 1;
            Some(b)
        } else {
            None
        }
    }

    /// Drains up to `cnt` bytes without looking at them.
    pub fn advance(&mut self, cnt: usize)
        requires
            old(self)@.wf(),
            old(self)@.mode == Mode::Read,
        ensures
            final(self)@ == old(self)@.advance(cnt as nat),
            final(self)@.wf(),
    {
        let left: usize = self.data.len() - self.pos;
        let n: usize = if cnt <= left { cnt } else { left };
        self.pos = self.pos + n;
    }

    /// A copy of the bytes still to drain, in order.
    pub fn bytes(&self) -> (r: Vec<u8>)
        requires
            self@.wf(),
        ensures
            r@ == self@.unread(),
    {
        let mut out: Vec<u8> = Vec::new();
        let mut i: usize = self.pos;
        while i < self.data.len()
            invariant
                self.pos <= i <= self.data@.len(),
                out@ == self.data@.subrange(self.pos as int, i as int),
            decreases self.data@.len() - i,
        {
            out.push(self.data[i]);
            proof {
                assert(self.data@.subrange(self.pos as int, i as int).push(self.data@[i as int])
                    =~= self.data@.subrange(self.pos as int, i + 1));
            }
            i = i + 1;
        }
        proof {
            assert(self.data@.subrange(self.pos as int, self.data@.len() as int)
                =~= self.data@.skip(self.pos as int));
        }
        out
    }
}

} // verus!
