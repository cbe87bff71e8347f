//! A byte buffer with a cheap "remove prefix" operation: the bytes it
//! presents are its storage past a starting offset.

use vstd::prelude::*;

verus! {

#[derive(Debug, Clone, Copy, PartialEq, Eq, Structural)]
pub enum BufferError {
    IndexOutOfBounds,
    NotContiguous,
}

#[derive(Debug)]
pub struct Buffer {
    storage: Vec<u8>,
    starting_offset: usize,
}

impl View for Buffer {
    type V = Seq<u8>;

    closed spec fn view(&self) -> Seq<u8> {
        self.storage@.skip(self.starting_offset as int)
    }
}

impl Clone for Buffer {
    fn clone(&self) -> (r: Self)
        ensures
            r@ == self@,
            self.wf() ==> r.wf(),
    {
        Buffer { storage: self.storage.clone(), starting_offset: self.starting_offset }
    }
}

impl Buffer {
    pub closed spec fn wf(&self) -> bool {
        self.starting_offset <= self.storage@.len()
    }

    pub fn new(v: Vec<u8>) -> (r: Self)
        ensures
            r.wf(),
            r@ == v@,
    {
        let r = Buffer { storage: v, starting_offset: 0 };
        proof {
            assert(r@ =~= r.storage@);
        }
        r
    }

    pub fn empty() -> (r: Self)
        ensures
            r.wf(),
            r@ == Seq::<u8>::empty(),
    {
        let r = Buffer { storage: Vec::new(), starting_offset: 0 };
        proof {
            assert(r@ =~= Seq::<u8>::empty());
        }
        r
    }

    pub fn size(&self) -> (r: usize)
        requires
            self.wf(),
        ensures
            r == self@.len(),
    {
        self.storage.len() - self.starting_offset
    }

    pub fn is_empty(&self) -> (r: bool)
        requires
            self.wf(),
        ensures
            r == (self@.len() == 0),
    {
        self.size() == 0
    }

    pub fn try_at(&self, n: usize) -> (r: Option<u8>)
        requires
            self.wf(),
        ensures
            n < self@.len() ==> r == Some(self@[n as int]),
            n >= self@.len() ==> r is None,
    {
        let total = self.storage.len();
        if n < total - self.starting_offset {
            Some(self.storage[self.starting_offset + n])
        } else {
            None
        }
    }

    pub fn at(&self, n: usize) -> (r: u8)
        requires
            self.wf(),
            n < self@.len(),
        ensures
            r == self@[n as int],
    {
        let total = self.storage.len();
        proof {
            assert(self@.len() == total - self.starting_offset);
        }
        self.storage[self.starting_offset + n]
    }

    /// Same view as `at`; the buffer is not changed.
    pub fn try_at_mut(&mut self, n: usize) -> (r: Option<u8>)
        requires
            old(self).wf(),
        ensures
            *final(self) == *old(self),
            n < old(self)@.len() ==> r == Some(old(self)@[n as int]),
            n >= old(self)@.len() ==> r is None,
    {
        self.try_at(n)
    }

    /// Same view as `at`; the buffer is not changed.
    pub fn at_mut(&mut self, n: usize) -> (r: u8)
        requires
            old(self).wf(),
            n < old(self)@.len(),
        ensures
            *final(self) == *old(self),
            r == old(self)@[n as int],
    {
        self.at(n)
    }

    /// A copy of the whole backing storage, offset included.
    pub fn clone_storage(&self) -> (r: Vec<u8>)
        ensures
            r@ == self.storage_view(),
    {
        self.storage.clone()
    }

    pub closed spec fn storage_view(&self) -> Seq<u8> {
        self.storage@
    }

    /// A copy of the bytes this buffer presents.
    pub fn to_vec(&self) -> (r: Vec<u8>)
        requires
            self.wf(),
        ensures
            r@ == self@,
    {
        let n = self.size();
        let mut r: Vec<u8> = Vec::new();
        let mut i: usize = 0;
        while i < n
            invariant
                i <= n,
                n == self@.len(),
                self.wf(),
                r@ == self@.take(i as int),
            decreases n - i,
        {
            r.push(self.at(i));
            proof {
                assert(self@.take(i + 1) =~= self@.take(i as int).push(self@[i as int]));
            }
            i = i + 1;
        }
        proof {
            assert(self@.take(n as int) =~= self@);
        }
        r
    }

    /// Drops the first `n` presented bytes; an over-long request is
    /// rejected and changes nothing.
    pub fn try_remove_prefix(&mut self, n: usize) -> (r: Result<(), BufferError>)
        requires
            old(self).wf(),
        ensures
            final(self).wf(),
            n <= old(self)@.len() ==> r is Ok && final(self)@ == old(self)@.skip(n as int),
            n > old(self)@.len() ==> r == Err::<(), BufferError>(BufferError::IndexOutOfBounds)
                && final(self)@ == old(self)@,
    {
        if n > self.size() {
            return Err(BufferError::IndexOutOfBounds);
        }
        let total = self.storage.len();
        proof {
            assert(self@.len() == total - self.starting_offset);
        }
        self.starting_offset = self.starting_offset + n;
        proof {
            assert(self@ =~= old(self)@.skip(n as int));
        }
        Ok(())
    }

    /// Drops the first `n` presented bytes.
    pub fn remove_prefix(&mut self, n: usize)
        requires
            old(self).wf(),
            n <= old(self)@.len(),
        ensures
            final(self).wf(),
            final(self)@ == old(self)@.skip(n as int),
    {
        let _ = self.try_remove_prefix(n);
    }

    /// Moves the contents out, leaving this buffer empty.
    pub fn take(&mut self) -> (r: Buffer)
        requires
            old(self).wf(),
        ensures
            final(self).wf(),
            final(self)@ == Seq::<u8>::empty(),
            r.wf(),
            r@ == old(self)@,
    {
        let storage = self.storage.clone();
        let offset = self.starting_offset;
        self.storage = Vec::new();
        self.starting_offset = 0;
        proof {
            assert(self@ =~= Seq::<u8>::empty());
        }
        Buffer { storage, starting_offset: offset }
    }
}

/// The bytes of a run of buffers, concatenated in order.
pub open spec fn flat_view(bs: Seq<Buffer>) -> Seq<u8>
    decreases bs.len(),
{
    if bs.len() == 0 {
        Seq::empty()
    } else {
        bs[0]@ + flat_view(bs.drop_first())
    }
}

proof fn lemma_flat_push(bs: Seq<Buffer>, b: Buffer)
    ensures
        flat_view(bs.push(b)) == flat_view(bs) + b@,
    decreases bs.len(),
{
    if bs.len() == 0 {
        assert(bs.push(b)[0] == b);
        assert(bs.push(b).drop_first() =~= Seq::<Buffer>::empty());
        assert(flat_view(bs.push(b).drop_first()) =~= Seq::<u8>::empty());
        assert(flat_view(bs.push(b)) =~= flat_view(bs) + b@);
    } else {
        assert(bs.push(b)[0] == bs[0]);
        assert(bs.push(b).drop_first() =~= bs.drop_first().push(b));
        lemma_flat_push(bs.drop_first(), b);
        assert(flat_view(bs.push(b)) =~= flat_view(bs) + b@);
    }
}

proof fn lemma_flat_concat(a: Seq<Buffer>, b: Seq<Buffer>)
    ensures
        flat_view(a + b) == flat_view(a) + flat_view(b),
    decreases a.len(),
{
    if a.len() == 0 {
        assert(a + b =~= b);
        assert(flat_view(a + b) =~= flat_view(a) + flat_view(b));
    } else {
        assert((a + b)[0] == a[0]);
        assert((a + b).drop_first() =~= a.drop_first() + b);
        lemma_flat_concat(a.drop_first(), b);
        assert(flat_view(a + b) =~= flat_view(a) + flat_view(b));
    }
}

/// A queue of buffers presenting their bytes as one stream, with cheap
/// appends and removal from the front.
#[derive(Debug)]
pub struct BufferList {
    buffers: std::collections::VecDeque<Buffer>,
}

impl View for BufferList {
    type V = Seq<u8>;

    closed spec fn view(&self) -> Seq<u8> {
        flat_view(self.buffers@)
    }
}

impl BufferList {
    pub closed spec fn wf(&self) -> bool {
        forall|i: int| 0 <= i < self.buffers@.len() ==> (#[trigger] self.buffers@[i]).wf()
    }

    pub fn new_empty() -> (r: Self)
        ensures
            r.wf(),
            r@ == Seq::<u8>::empty(),
    {
        BufferList { buffers: std::collections::VecDeque::new() }
    }

    pub fn from_buffer(b: Buffer) -> (r: Self)
        requires
            b.wf(),
        ensures
            r.wf(),
            r@ == b@,
    {
        let mut buffers = std::collections::VecDeque::new();
        let ghost pre = buffers@;
        buffers.push_back(b);
        proof {
            assert(buffers@ =~= pre.push(b));
            lemma_flat_push(pre, b);
            assert(flat_view(buffers@) =~= b@);
        }
        BufferList { buffers }
    }

    /// The total number of bytes across all buffers.
    pub fn size(&self) -> (r: usize)
        requires
            self.wf(),
            self@.len() <= usize::MAX,
        ensures
            r == self@.len(),
    {
        let mut total: usize = 0;
        let mut i: usize = 0;
        proof {
            assert(self.buffers@.take(0) =~= Seq::<Buffer>::empty());
        }
        while i < self.buffers.len()
            invariant
                self.wf(),
                self@.len() <= usize::MAX,
                i <= self.buffers@.len(),
                total == flat_view(self.buffers@.take(i as int)).len(),
            decreases self.buffers@.len() - i,
        {
            proof {
                assert(self.buffers@.take(i as int + 1)
                    =~= self.buffers@.take(i as int).push(self.buffers@[i as int]));
                lemma_flat_push(self.buffers@.take(i as int), self.buffers@[i as int]);
                assert(self.buffers@.take(self.buffers@.len() as int) =~= self.buffers@);
                lemma_flat_prefix_le(self.buffers@, i as int + 1);
            }
            total = total + self.buffers[i].size();
            i = i + 1;
        }
        proof {
            assert(self.buffers@.take(self.buffers@.len() as int) =~= self.buffers@);
        }
        total
    }

    pub fn is_empty(&self) -> (r: bool)
        requires
            self.wf(),
            self@.len() <= usize::MAX,
        ensures
            r == (self@.len() == 0),
    {
        self.size() == 0
    }

    /// Appends another list's buffers after this one's.
    pub fn append(&mut self, other: BufferList)
        requires
            old(self).wf(),
            other.wf(),
        ensures
            final(self).wf(),
            final(self)@ == old(self)@ + other@,
    {
        let mut other = other;
        let ghost o0 = other.buffers@;
        self.buffers.append(&mut other.buffers);
        proof {
            lemma_flat_concat(old(self).buffers@, o0);
        }
    }

    /// Removes and returns the first `n` bytes; with fewer available,
    /// everything is drained and the request is rejected.
    pub fn try_remove_prefix(&mut self, n: usize) -> (r: Result<Vec<u8>, BufferError>)
        requires
            old(self).wf(),
            old(self)@.len() <= usize::MAX,
        ensures
            final(self).wf(),
            n <= old(self)@.len() ==> (r matches Ok(v) && v@ == old(self)@.take(n as int)
                && final(self)@ == old(self)@.skip(n as int)),
            n > old(self)@.len() ==> r == Err::<Vec<u8>, BufferError>(
                BufferError::IndexOutOfBounds,
            ) && final(self)@ == Seq::<u8>::empty(),
    {
        let mut all: Vec<u8> = Vec::new();
        proof {
            assert(all@ + flat_view(self.buffers@) =~= old(self)@);
        }
        loop
            invariant
                self.wf(),
                all@ + flat_view(self.buffers@) == old(self)@,
                all@.len() <= old(self)@.len(),
            ensures
                self.buffers@.len() == 0,
                all@ == old(self)@,
            decreases self.buffers@.len(),
        {
            let ghost bufs_pre = self.buffers@;
            let front = self.buffers.pop_front();
            match front {
                None => {
                    proof {
                        assert(flat_view(self.buffers@).len() == 0);
                        assert(all@ =~= all@ + flat_view(self.buffers@));
                    }
                    break;
                },
                Some(buffer) => {
                    proof {
                        assert(bufs_pre[0] == buffer);
                        assert(self.buffers@ =~= bufs_pre.drop_first());
                        assert(flat_view(bufs_pre)
                            == buffer@ + flat_view(bufs_pre.drop_first()));
                        lemma_flat_len(self.buffers@);
                    }
                    let piece = buffer.to_vec();
                    let ghost all_pre = all@;
                    let mut k: usize = 0;
                    while k < piece.len()
                        invariant
                            k <= piece@.len(),
                            all@ == all_pre + piece@.take(k as int),
                        decreases piece@.len() - k,
                    {
                        all.push(piece[k]);
                        proof {
                            assert(all@ =~= all_pre + piece@.take(k as int + 1));
                        }
                        k = k + 1;
                    }
                    proof {
                        assert(piece@.take(piece@.len() as int) =~= piece@);
                        assert(all@ =~= all_pre + buffer@);
                        assert(all@ + flat_view(self.buffers@) =~= old(self)@);
                    }
                },
            }
        }
        if n > all.len() {
            proof {
                assert(final(self)@ =~= Seq::<u8>::empty());
            }
            return Err(BufferError::IndexOutOfBounds);
        }
        let mut out: Vec<u8> = Vec::new();
        let mut i: usize = 0;
        while i < n
            invariant
                i <= n,
                n <= all@.len(),
                out@ == all@.take(i as int),
            decreases n - i,
        {
            out.push(all[i]);
            proof {
                assert(out@ =~= all@.take(i as int + 1));
            }
            i = i + 1;
        }
        let mut rest: Vec<u8> = Vec::new();
        let mut j: usize = n;
        while j < all.len()
            invariant
                n <= j <= all@.len(),
                rest@ == all@.skip(n as int).take(j - n),
            decreases all@.len() - j,
        {
            rest.push(all[j]);
            proof {
                assert(all@.skip(n as int).take(j - n + 1)
                    =~= all@.skip(n as int).take((j - n) as int).push(all@[j as int]));
            }
            j = j + 1;
        }
        proof {
            assert(rest@ =~= all@.skip(n as int));
        }
        if rest.len() > 0 {
            let tail = Buffer::new(rest);
            let ghost empty_bufs = self.buffers@;
            self.buffers.push_back(tail);
            proof {
                assert(self.buffers@ =~= empty_bufs.push(tail));
                lemma_flat_push(empty_bufs, tail);
                assert(flat_view(empty_bufs) =~= Seq::<u8>::empty());
                assert(final(self)@ =~= old(self)@.skip(n as int));
            }
        } else {
            proof {
                assert(all@.skip(n as int).len() == 0);
                assert(final(self)@ =~= old(self)@.skip(n as int));
            }
        }
        Ok(out)
    }
}

proof fn lemma_flat_len(bs: Seq<Buffer>)
    ensures
        flat_view(bs).len() >= 0,
    decreases bs.len(),
{
}

proof fn lemma_flat_prefix_le(bs: Seq<Buffer>, i: int)
    requires
        0 <= i <= bs.len(),
    ensures
        flat_view(bs.take(i)).len() <= flat_view(bs).len(),
{
    assert(bs.take(i) + bs.skip(i) =~= bs);
    lemma_flat_concat(bs.take(i), bs.skip(i));
}

} // verus!
