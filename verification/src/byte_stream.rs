//! A bounded FIFO of bytes with end-of-input and error signalling.
//!
//! Writes accept at most `remaining_capacity` bytes; reads past the
//! buffered data are clamped. `bytes_written` and `bytes_read` count
//! every byte ever accepted and ever popped, so they are non-decreasing
//! and `bytes_read <= bytes_written` always holds.

use vstd::prelude::*;

verus! {

use std::collections::VecDeque;

pub struct ByteStream {
    buffer: VecDeque<u8>,
    capacity: usize,
    bytes_written: usize,
    bytes_read: usize,
    input_ended: bool,
    error: bool,
    /// Every byte ever accepted by `write`, in order.
    history: Ghost<Seq<u8>>,
}

impl ByteStream {
    /// The fixed capacity the stream was created with.
    pub closed spec fn spec_capacity(&self) -> nat {
        self.capacity as nat
    }

    /// The bytes currently buffered (written, not yet popped).
    pub closed spec fn spec_buffer(&self) -> Seq<u8> {
        self.buffer@
    }

    /// Total bytes ever accepted by `write`.
    pub closed spec fn spec_bytes_written(&self) -> nat {
        self.bytes_written as nat
    }

    /// Total bytes ever popped by `pop_output` or `read`.
    pub closed spec fn spec_bytes_read(&self) -> nat {
        self.bytes_read as nat
    }

    pub closed spec fn spec_input_ended(&self) -> bool {
        self.input_ended
    }

    pub closed spec fn spec_error(&self) -> bool {
        self.error
    }

    /// Every byte ever accepted by `write`, in order; the buffer is its
    /// suffix past the bytes already read.
    pub closed spec fn spec_history(&self) -> Seq<u8> {
        self.history@
    }

    pub open spec fn spec_buffer_size(&self) -> nat {
        self.spec_buffer().len()
    }

    pub open spec fn spec_remaining_capacity(&self) -> nat {
        (self.spec_capacity() - self.spec_buffer_size()) as nat
    }

    pub open spec fn spec_eof(&self) -> bool {
        self.spec_input_ended() && self.spec_buffer_size() == 0
    }

    pub open spec fn wf(&self) -> bool {
        &&& self.spec_bytes_read() <= self.spec_bytes_written()
        &&& self.spec_buffer_size() == self.spec_bytes_written() - self.spec_bytes_read()
        &&& self.spec_buffer_size() <= self.spec_capacity()
        &&& self.spec_history().len() == self.spec_bytes_written()
        &&& self.spec_buffer() == self.spec_history().skip(self.spec_bytes_read() as int)
    }

    pub fn new(capacity: usize) -> (r: Self)
        ensures
            r.wf(),
            r.spec_capacity() == capacity,
            r.spec_buffer() == Seq::<u8>::empty(),
            r.spec_bytes_written() == 0,
            r.spec_bytes_read() == 0,
            !r.spec_input_ended(),
            !r.spec_error(),
            r.spec_history() == Seq::<u8>::empty(),
    {
        let r = ByteStream {
            buffer: VecDeque::new(),
            capacity,
            bytes_written: 0,
            bytes_read: 0,
            input_ended: false,
            error: false,
            history: Ghost(Seq::empty()),
        };
        proof {
            assert(r.spec_buffer() =~= Seq::<u8>::empty());
            assert(r.spec_buffer() =~= r.spec_history().skip(0));
        }
        r
    }

    /// Copies up to `remaining_capacity` bytes of `data` into the buffer
    /// and returns how many were accepted.
    pub fn write(&mut self, data: &[u8]) -> (n: usize)
        requires
            old(self).wf(),
            old(self).spec_bytes_written() + data@.len() <= usize::MAX,
        ensures
            final(self).wf(),
            n == vstd::math::min(data@.len() as int, old(self).spec_remaining_capacity() as int),
            final(self).spec_buffer() == old(self).spec_buffer() + data@.take(n as int),
            final(self).spec_history() == old(self).spec_history() + data@.take(n as int),
            final(self).spec_bytes_written() == old(self).spec_bytes_written() + n,
            final(self).spec_bytes_written() >= old(self).spec_bytes_written(),
            final(self).spec_bytes_read() == old(self).spec_bytes_read(),
            final(self).spec_capacity() == old(self).spec_capacity(),
            final(self).spec_input_ended() == old(self).spec_input_ended(),
            final(self).spec_error() == old(self).spec_error(),
    {
        let room: usize = self.capacity - self.buffer.len();
        let n: usize = if data.len() < room { data.len() } else { room };
        let mut i: usize = 0;
        while i < n
            invariant
                i <= n,
                n <= data@.len(),
                self.buffer@ == old(self).spec_buffer() + data@.take(i as int),
                self.capacity == old(self).spec_capacity(),
                self.bytes_written == old(self).spec_bytes_written(),
                self.bytes_read == old(self).spec_bytes_read(),
                self.input_ended == old(self).spec_input_ended(),
                self.error == old(self).spec_error(),
                self.history == old(self).spec_history(),
            decreases n - i,
        {
            self.buffer.push_back(data[i]);
            proof {
                assert(data@.take((i + 1) as int) =~= data@.take(i as int).push(data@[i as int]));
            }
            i = i + 1;
        }
        self.bytes_written = self.bytes_written + n;
        self.history = Ghost(self.history@ + data@.take(n as int));
        proof {
            assert(self.spec_buffer() =~= self.spec_history().skip(self.spec_bytes_read() as int));
        }
        n
    }

    /// A non-consuming view of the first `min(len, buffer_size)` buffered bytes.
    pub fn peek_out(&self, len: usize) -> (r: Vec<u8>)
        ensures
            r@ == self.spec_buffer().take(
                vstd::math::min(len as int, self.spec_buffer_size() as int),
            ),
    {
        let m: usize = if len < self.buffer.len() { len } else { self.buffer.len() };
        let mut r: Vec<u8> = Vec::new();
        let mut i: usize = 0;
        while i < m
            invariant
                i <= m,
                m <= self.buffer@.len(),
                r@ == self.spec_buffer().take(i as int),
            decreases m - i,
        {
            r.push(self.buffer[i]);
            proof {
                assert(self.spec_buffer().take((i + 1) as int)
                    =~= self.spec_buffer().take(i as int).push(self.spec_buffer()[i as int]));
            }
            i = i + 1;
        }
        r
    }

    /// The same non-consuming view, under its other traditional name.
    pub fn peek_output(&self, len: usize) -> (r: Vec<u8>)
        ensures
            r@ == self.spec_buffer().take(
                vstd::math::min(len as int, self.spec_buffer_size() as int),
            ),
    {
        self.peek_out(len)
    }

    /// Discards the first `min(len, buffer_size)` buffered bytes and
    /// returns them; a request past the buffered data is clamped.
    pub fn pop_output(&mut self, len: usize) -> (r: Vec<u8>)
        requires
            old(self).wf(),
        ensures
            final(self).wf(),
            r@ == old(self).spec_buffer().take(
                vstd::math::min(len as int, old(self).spec_buffer_size() as int),
            ),
            final(self).spec_buffer() == old(self).spec_buffer().skip(r@.len() as int),
            final(self).spec_bytes_read() == old(self).spec_bytes_read() + r@.len(),
            final(self).spec_bytes_read() >= old(self).spec_bytes_read(),
            final(self).spec_bytes_written() == old(self).spec_bytes_written(),
            final(self).spec_history() == old(self).spec_history(),
            final(self).spec_capacity() == old(self).spec_capacity(),
            final(self).spec_input_ended() == old(self).spec_input_ended(),
            final(self).spec_error() == old(self).spec_error(),
    {
        let m: usize = if len < self.buffer.len() { len } else { self.buffer.len() };
        let mut r: Vec<u8> = Vec::new();
        let mut i: usize = 0;
        while i < m
            invariant
                i <= m,
                m <= old(self).spec_buffer().len(),
                r@ == old(self).spec_buffer().take(i as int),
                self.buffer@ == old(self).spec_buffer().skip(i as int),
                self.capacity == old(self).spec_capacity(),
                self.bytes_written == old(self).spec_bytes_written(),
                self.bytes_read == old(self).spec_bytes_read(),
                self.input_ended == old(self).spec_input_ended(),
                self.error == old(self).spec_error(),
                self.history == old(self).spec_history(),
            decreases m - i,
        {
            let b = self.buffer.pop_front().unwrap();
            r.push(b);
            proof {
                assert(old(self).spec_buffer().take((i + 1) as int)
                    =~= old(self).spec_buffer().take(i as int)
                        .push(old(self).spec_buffer()[i as int]));
                assert(self.buffer@ =~= old(self).spec_buffer().skip((i + 1) as int));
            }
            i = i + 1;
        }
        self.bytes_read = self.bytes_read + m;
        proof {
            assert(self.spec_buffer() =~= self.spec_history().skip(self.spec_bytes_read() as int));
        }
        r
    }

    /// Equivalent to `peek_out(len)` followed by `pop_output(len)`.
    pub fn read(&mut self, len: usize) -> (r: Vec<u8>)
        requires
            old(self).wf(),
        ensures
            final(self).wf(),
            r@ == old(self).spec_buffer().take(
                vstd::math::min(len as int, old(self).spec_buffer_size() as int),
            ),
            final(self).spec_buffer() == old(self).spec_buffer().skip(r@.len() as int),
            final(self).spec_bytes_read() == old(self).spec_bytes_read() + r@.len(),
            final(self).spec_bytes_read() >= old(self).spec_bytes_read(),
            final(self).spec_bytes_written() == old(self).spec_bytes_written(),
            final(self).spec_history() == old(self).spec_history(),
            final(self).spec_capacity() == old(self).spec_capacity(),
            final(self).spec_input_ended() == old(self).spec_input_ended(),
            final(self).spec_error() == old(self).spec_error(),
    {
        self.pop_output(len)
    }

    /// Marks the input as ended (idempotent).
    pub fn end_input(&mut self)
        ensures
            final(self).spec_input_ended(),
            final(self).spec_buffer() == old(self).spec_buffer(),
            final(self).spec_history() == old(self).spec_history(),
            final(self).spec_bytes_written() == old(self).spec_bytes_written(),
            final(self).spec_bytes_read() == old(self).spec_bytes_read(),
            final(self).spec_capacity() == old(self).spec_capacity(),
            final(self).spec_error() == old(self).spec_error(),
            old(self).wf() ==> final(self).wf(),
    {
        self.input_ended = true;
    }

    pub fn input_ended(&self) -> (r: bool)
        ensures
            r == self.spec_input_ended(),
    {
        self.input_ended
    }

    pub fn buffer_size(&self) -> (r: usize)
        ensures
            r == self.spec_buffer_size(),
    {
        self.buffer.len()
    }

    pub fn buffer_empty(&self) -> (r: bool)
        ensures
            r == (self.spec_buffer_size() == 0),
    {
        self.buffer.len() == 0
    }

    pub fn eof(&self) -> (r: bool)
        ensures
            r == self.spec_eof(),
    {
        self.buffer_empty() && self.input_ended()
    }

    pub fn bytes_written(&self) -> (r: usize)
        ensures
            r == self.spec_bytes_written(),
    {
        self.bytes_written
    }

    pub fn bytes_read(&self) -> (r: usize)
        ensures
            r == self.spec_bytes_read(),
    {
        self.bytes_read
    }

    pub fn remaining_capacity(&self) -> (r: usize)
        requires
            self.wf(),
        ensures
            r == self.spec_remaining_capacity(),
    {
        self.capacity - self.buffer.len()
    }

    pub fn error(&self) -> (r: bool)
        ensures
            r == self.spec_error(),
    {
        self.error
    }

    /// Marks the stream as errored (idempotent).
    pub fn set_error(&mut self)
        ensures
            final(self).spec_error(),
            final(self).spec_buffer() == old(self).spec_buffer(),
            final(self).spec_history() == old(self).spec_history(),
            final(self).spec_bytes_written() == old(self).spec_bytes_written(),
            final(self).spec_bytes_read() == old(self).spec_bytes_read(),
            final(self).spec_capacity() == old(self).spec_capacity(),
            final(self).spec_input_ended() == old(self).spec_input_ended(),
            old(self).wf() ==> final(self).wf(),
    {
        self.error = true;
    }
}

} // verus!
