//! A queue of byte chunks that keeps the total number of queued bytes.

use std::collections::VecDeque;

use vstd::prelude::*;

use crate::chunk::Chunk;

verus! {

/// The bytes of `chunks`, in order.
pub open spec fn flat<B: Chunk>(chunks: Seq<B>) -> Seq<u8>
    decreases chunks.len(),
{
    if chunks.len() == 0 {
        Seq::empty()
    } else {
        flat(chunks.drop_last()) + chunks.last().bytes_of()
    }
}

/// The sum of the lengths of `chunks`.
pub open spec fn sum_lens<B: Chunk>(chunks: Seq<B>) -> nat
    decreases chunks.len(),
{
    if chunks.len() == 0 {
        0
    } else {
        sum_lens(chunks.drop_last()) + chunks.last().bytes_of().len()
    }
}

/// The number of bytes in a sequence of chunks is the sum of their lengths,
/// so the length a well-formed queue reports is that sum.
pub proof fn lemma_len_is_sum_of_chunks<B: Chunk>(chunks: Seq<B>)
    ensures
        flat(chunks).len() == sum_lens(chunks),
    decreases chunks.len(),
{
    if chunks.len() > 0 {
        lemma_len_is_sum_of_chunks(chunks.drop_last());
    }
}

/// The bytes of a non-empty sequence of chunks are those of its first chunk
/// followed by those of the others.
pub proof fn lemma_flat_front<B: Chunk>(chunks: Seq<B>)
    requires
        chunks.len() > 0,
    ensures
        flat(chunks) == chunks[0].bytes_of() + flat(chunks.drop_first()),
    decreases chunks.len(),
{
    if chunks.len() == 1 {
        assert(chunks.drop_last() =~= Seq::<B>::empty());
        assert(chunks.drop_first() =~= Seq::<B>::empty());
        assert(flat(chunks.drop_last()) =~= Seq::<u8>::empty());
        assert(flat(chunks) =~= chunks[0].bytes_of());
    } else {
        let init = chunks.drop_last();
        lemma_flat_front(init);
        assert(init.drop_first() =~= chunks.drop_first().drop_last());
        assert(chunks.drop_first().last() == chunks.last());
        assert(flat(chunks) =~= chunks[0].bytes_of() + flat(chunks.drop_first()));
    }
}

/// An ordered queue of chunks. `len` is the number of bytes in all chunks,
/// kept up to date by every operation rather than recounted.
pub struct BufVecDeque<B: Chunk> {
    deque: VecDeque<B>,
    len: usize,
}

/// The chunk taken from the back of a queue by `BufVecDeque::back_mut`, to be
/// changed in place and handed back with `release`.
pub struct BufVecDequeBackMut<B: Chunk> {
    pub back: B,
}

impl<B: Chunk> View for BufVecDeque<B> {
    type V = Seq<B>;

    closed spec fn view(&self) -> Seq<B> {
        self.deque@
    }
}

impl<B: Chunk> BufVecDeque<B> {
    /// The stored length is the number of bytes in the chunks.
    pub closed spec fn wf(&self) -> bool {
        self.len == flat(self.deque@).len()
    }

    /// All queued bytes, front first.
    pub open spec fn content(&self) -> Seq<u8> {
        flat(self@)
    }

    pub fn new() -> (r: Self)
        ensures
            r.wf(),
            r@ == Seq::<B>::empty(),
    {
        BufVecDeque { deque: VecDeque::new(), len: 0 }
    }

    /// A queue of the given chunks; `None` where their total length does not
    /// fit in `usize`.
    pub fn from_deque(deque: VecDeque<B>) -> (r: Option<Self>)
        ensures
            r is Some <==> flat(deque@).len() <= usize::MAX,
            r matches Some(q) ==> q.wf() && q@ == deque@,
    {
        let n = deque.len();
        let mut sum: usize = 0;
        let mut i: usize = 0;
        while i < n
            invariant
                n == deque@.len(),
                i <= n,
                sum == flat(deque@.take(i as int)).len(),
            decreases n - i,
        {
            proof {
                assert(deque@.take(i + 1).drop_last() =~= deque@.take(i as int));
            }
            let c = deque[i].remaining();
            if c > usize::MAX - sum {
                proof {
                    lemma_flat_prefix_len(deque@, i + 1);
                }
                return None;
            }
            sum = sum + c;
            i = i + 1;
        }
        assert(deque@.take(n as int) =~= deque@);
        Some(BufVecDeque { deque, len: sum })
    }

    /// The number of queued bytes.
    pub fn len(&self) -> (r: usize)
        requires
            self.wf(),
        ensures
            r == self.content().len(),
    {
        self.len
    }

    /// The number of queued bytes.
    pub fn remaining(&self) -> (r: usize)
        requires
            self.wf(),
        ensures
            r == self.content().len(),
    {
        self.len
    }

    /// The bytes at the front of the queue: those of the first chunk that
    /// is not empty, or none where every chunk is.
    pub fn bytes(&self) -> (r: &[u8])
        requires
            self.wf(),
        ensures
            r@ == self.content().take(r@.len() as int),
            r@.len() == 0 <==> self.content().len() == 0,
    {
        let n = self.deque.len();
        let mut i: usize = 0;
        assert(self.deque@.skip(0) =~= self.deque@);
        while i < n
            invariant
                n == self.deque@.len(),
                i <= n,
                flat(self.deque@.skip(i as int)) == flat(self.deque@),
            decreases n - i,
        {
            let ghost rest = self.deque@.skip(i as int);
            proof {
                lemma_flat_front(rest);
                assert(rest.drop_first() =~= self.deque@.skip(i + 1));
            }
            let b = self.deque[i].bytes();
            if b.len() != 0 {
                proof {
                    let k = b@.len() as int;
                    assert(rest[0] == self.deque@[i as int]);
                    assert((rest[0].bytes_of() + flat(rest.drop_first())).take(k) =~= rest[0].bytes_of().take(k));
                }
                return b;
            }
            proof {
                assert(rest[0] == self.deque@[i as int]);
                assert(rest[0].bytes_of() + flat(rest.drop_first()) =~= flat(rest.drop_first()));
            }
            i = i + 1;
        }
        proof {
            assert(self.deque@.skip(n as int) =~= Seq::<B>::empty());
            assert(flat(Seq::<B>::empty()) =~= Seq::<u8>::empty());
        }
        &[]
    }

    pub fn push_back(&mut self, bytes: B)
        requires
            old(self).wf(),
            old(self).content().len() + bytes.bytes_of().len() <= usize::MAX,
        ensures
            final(self).wf(),
            final(self)@ == old(self)@.push(bytes),
    {
        self.len = self.len + bytes.remaining();
        self.deque.push_back(bytes);
        assert(self.deque@.drop_last() =~= old(self).deque@);
    }

    pub fn pop_back(&mut self) -> (r: Option<B>)
        requires
            old(self).wf(),
        ensures
            final(self).wf(),
            match r {
                Some(b) => old(self)@.len() > 0 && b == old(self)@.last()
                    && final(self)@ == old(self)@.drop_last(),
                None => old(self)@.len() == 0 && final(self)@ == old(self)@,
            },
    {
        match self.deque.pop_back() {
            Some(b) => {
                assert(self.deque@ =~= old(self).deque@.drop_last());
                self.len = self.len - b.remaining();
                Some(b)
            },
            None => None,
        }
    }

    /// Takes the back chunk out for changes in place. Until it is released
    /// the queue's length does not count it.
    pub fn back_mut(&mut self) -> (r: Option<BufVecDequeBackMut<B>>)
        requires
            old(self).wf(),
        ensures
            final(self).wf(),
            match r {
                Some(g) => old(self)@.len() > 0 && g.back == old(self)@.last()
                    && final(self)@ == old(self)@.drop_last(),
                None => old(self)@.len() == 0 && final(self)@ == old(self)@,
            },
    {
        match self.pop_back() {
            Some(back) => Some(BufVecDequeBackMut { back }),
            None => None,
        }
    }

    /// Drops the first `cnt` queued bytes, removing the chunks they empty and
    /// advancing the first chunk that keeps some.
    pub fn advance(&mut self, cnt: usize)
        requires
            old(self).wf(),
            cnt <= old(self).content().len(),
        ensures
            final(self).wf(),
            final(self).content() == old(self).content().skip(cnt as int),
    {
        let ghost target = old(self).content().skip(cnt as int);
        self.len = self.len - cnt;
        let mut cnt = cnt;
        while cnt != 0
            invariant
                cnt <= flat(self.deque@).len(),
                self.len == flat(self.deque@).len() - cnt,
                flat(self.deque@).skip(cnt as int) == target,
            decreases self.deque@.len() + cnt,
        {
            let ghost before = self.deque@;
            proof {
                lemma_flat_front(before);
            }
            let mut front = self.deque.pop_front().unwrap();
            assert(self.deque@ =~= before.drop_first());
            let front_remaining = front.remaining();
            if cnt < front_remaining {
                front.advance(cnt);
                self.deque.push_front(front);
                proof {
                    lemma_flat_front(self.deque@);
                    assert(self.deque@.drop_first() =~= before.drop_first());
                    assert(flat(self.deque@) =~= flat(before).skip(cnt as int));
                }
                cnt = 0;
            } else {
                assert(flat(self.deque@).skip(cnt - front_remaining) =~= flat(before).skip(
                    cnt as int,
                ));
                cnt = cnt - front_remaining;
            }
        }
        assert(flat(self.deque@).skip(0) =~= flat(self.deque@));
    }

    /// Removes the front chunk whole if it holds at most `max` bytes, else
    /// splits its first `max` bytes off in place and returns them.
    pub fn pop_front_max(&mut self, max: usize) -> (r: Option<B>)
        requires
            old(self).wf(),
        ensures
            final(self).wf(),
            match r {
                Some(c) => old(self)@.len() > 0 && c.bytes_of().len() == (if old(
                    self,
                )@[0].bytes_of().len() <= max {
                    old(self)@[0].bytes_of().len()
                } else {
                    max as nat
                }) && c.bytes_of() == old(self).content().take(c.bytes_of().len() as int)
                    && final(self).content() == old(self).content().skip(
                    c.bytes_of().len() as int,
                ),
                None => old(self)@.len() == 0 && final(self)@ == old(self)@,
            },
    {
        let ghost before = self.deque@;
        match self.deque.pop_front() {
            Some(mut front) => {
                proof {
                    lemma_flat_front(before);
                }
                assert(self.deque@ =~= before.drop_first());
                let n = front.remaining();
                if n <= max {
                    self.len = self.len - n;
                    assert(front.bytes_of() =~= flat(before).take(n as int));
                    assert(flat(self.deque@) =~= flat(before).skip(n as int));
                    Some(front)
                } else {
                    let head = front.split_to(max);
                    self.deque.push_front(front);
                    self.len = self.len - max;
                    proof {
                        lemma_flat_front(self.deque@);
                        assert(self.deque@.drop_first() =~= before.drop_first());
                    }
                    assert(head.bytes_of() =~= flat(before).take(max as int));
                    assert(flat(self.deque@) =~= flat(before).skip(max as int));
                    Some(head)
                }
            },
            None => None,
        }
    }

    /// The chunks, front first.
    pub fn into_chunks(self) -> (r: VecDeque<B>)
        ensures
            r@ == self@,
    {
        self.deque
    }
}

impl<B: Chunk> BufVecDequeBackMut<B> {
    /// Puts the chunk back at the end of `deque`, counting its bytes as they
    /// are now.
    pub fn release(self, deque: &mut BufVecDeque<B>)
        requires
            old(deque).wf(),
            old(deque).content().len() + self.back.bytes_of().len() <= usize::MAX,
        ensures
            final(deque).wf(),
            final(deque)@ == old(deque)@.push(self.back),
    {
        deque.push_back(self.back)
    }
}

/// The bytes of a prefix of chunks are no more than those of all of them.
proof fn lemma_flat_prefix_len<B: Chunk>(chunks: Seq<B>, i: int)
    requires
        0 <= i <= chunks.len(),
    ensures
        flat(chunks.take(i)).len() <= flat(chunks).len(),
    decreases chunks.len() - i,
{
    if i < chunks.len() {
        lemma_flat_prefix_len(chunks, i + 1);
        assert(chunks.take(i + 1).drop_last() =~= chunks.take(i));
    } else {
        assert(chunks.take(i) =~= chunks);
    }
}

} // verus!
