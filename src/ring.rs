//! A bounded first-in first-out buffer that drops its oldest element when full.

use std::collections::VecDeque;
use vstd::prelude::*;

verus! {

/// The last `cap` elements of `s` (all of `s` when it is shorter).
pub open spec fn keep_last<T>(s: Seq<T>, cap: nat) -> Seq<T> {
    if s.len() <= cap {
        s
    } else {
        s.subrange(s.len() - cap, s.len() as int)
    }
}

/// The most slots a buffer allocates when it is built.
pub const MAX_RESERVE: usize = 4194304;

/// A ring buffer of bounded length.
pub struct RingBuffer<T> {
    items: VecDeque<T>,
    capacity: usize,
}

impl<T: Copy> RingBuffer<T> {
    /// The elements in order of arrival, oldest first.
    pub closed spec fn view(&self) -> Seq<T> {
        self.items@
    }

    pub closed spec fn cap(&self) -> nat {
        self.capacity as nat
    }

    pub closed spec fn wf(&self) -> bool {
        &&& self.items@.len() <= self.capacity
    }

    pub proof fn lemma_len_bound(&self)
        requires
            self.wf(),
        ensures
            self.view().len() <= self.cap(),
    {
    }

    /// An empty buffer of capacity `capacity`; up to `MAX_RESERVE` slots are
    /// allocated at once.
    pub fn new(capacity: usize) -> (r: Self)
        ensures
            r.wf(),
            r.view() == Seq::<T>::empty(),
            r.cap() == capacity,
    {
        let reserve = if capacity < MAX_RESERVE {
            capacity
        } else {
            MAX_RESERVE
        };
        RingBuffer { items: VecDeque::with_capacity(reserve), capacity }
    }

    pub fn capacity(&self) -> (r: usize)
        ensures
            r == self.cap(),
    {
        self.capacity
    }

    pub fn len(&self) -> (r: usize)
        requires
            self.wf(),
        ensures
            r == self.view().len(),
    {
        self.items.len()
    }

    pub fn is_full(&self) -> (r: bool)
        requires
            self.wf(),
        ensures
            r == (self.view().len() == self.cap()),
    {
        self.items.len() >= self.capacity
    }

    pub fn get(&self, i: usize) -> (r: T)
        requires
            self.wf(),
            i < self.view().len(),
        ensures
            r == self.view()[i as int],
    {
        self.items[i]
    }

    /// Appends `x`, dropping the oldest element first when the buffer is full.
    pub fn push(&mut self, x: T)
        requires
            old(self).wf(),
        ensures
            final(self).wf(),
            final(self).cap() == old(self).cap(),
            final(self).view() == keep_last(old(self).view().push(x), old(self).cap()),
    {
        if self.capacity == 0 {
            return;
        }
        if self.items.len() >= self.capacity {
            let _ = self.items.pop_front();
        }
        self.items.push_back(x);
        proof {
            let s = old(self).items@.push(x);
            if old(self).items@.len() == old(self).capacity {
                assert(self.items@ =~= s.subrange(s.len() - self.capacity, s.len() as int));
            }
        }
    }

    /// Appends every element of `xs` in order.
    pub fn push_all(&mut self, xs: &Vec<T>)
        requires
            old(self).wf(),
        ensures
            final(self).wf(),
            final(self).cap() == old(self).cap(),
            final(self).view() == keep_last(old(self).view() + xs@, old(self).cap()),
    {
        let mut i: usize = 0;
        while i < xs.len()
            invariant
                self.wf(),
                self.cap() == old(self).cap(),
                i <= xs@.len(),
                self.view() == keep_last(old(self).view() + xs@.subrange(0, i as int), self.cap()),
            decreases xs@.len() - i,
        {
            let ghost before = old(self).view() + xs@.subrange(0, i as int);
            proof {
                lemma_keep_last_push(before, xs@[i as int], self.cap());
                assert(before.push(xs@[i as int]) =~= old(self).view() + xs@.subrange(0, i + 1));
            }
            self.push(xs[i]);
            i = i + 1;
        }
        assert(xs@.subrange(0, xs@.len() as int) =~= xs@);
    }

    /// Removes every element.
    pub fn clear(&mut self)
        requires
            old(self).wf(),
        ensures
            final(self).wf(),
            final(self).cap() == old(self).cap(),
            final(self).view() == Seq::<T>::empty(),
    {
        self.items.clear();
    }

    /// A contiguous copy of the contents, oldest first.
    pub fn to_vec(&self) -> (r: Vec<T>)
        requires
            self.wf(),
        ensures
            r@ == self.view(),
    {
        let mut out: Vec<T> = Vec::with_capacity(self.items.len());
        let mut i: usize = 0;
        while i < self.items.len()
            invariant
                self.wf(),
                i <= self.items@.len(),
                out@ == self.items@.subrange(0, i as int),
            decreases self.items@.len() - i,
        {
            out.push(self.items[i]);
            i = i + 1;
            assert(out@ =~= self.items@.subrange(0, i as int));
        }
        assert(out@ =~= self.items@);
        out
    }
}

/// Keeping the last `cap` elements commutes with appending one more.
pub proof fn lemma_keep_last_push<T>(s: Seq<T>, x: T, cap: nat)
    ensures
        keep_last(keep_last(s, cap).push(x), cap) == keep_last(s.push(x), cap),
{
    let k = keep_last(s, cap);
    if cap == 0 {
        assert(keep_last(k.push(x), cap) =~= keep_last(s.push(x), cap));
    } else if s.len() <= cap {
    } else {
        assert(k.push(x).len() == cap + 1);
        assert(keep_last(k.push(x), cap) =~= keep_last(s.push(x), cap));
    }
}

/// Pushing `xs` into a buffer holding `s` never leaves more than `cap`
/// elements, and leaves exactly `cap` once at least that many have arrived.
pub proof fn lemma_fills_to_capacity<T>(s: Seq<T>, xs: Seq<T>, cap: nat)
    requires
        s.len() <= cap,
    ensures
        keep_last(s + xs, cap).len() <= cap,
        s.len() + xs.len() >= cap ==> keep_last(s + xs, cap).len() == cap,
        s.len() + xs.len() < cap ==> keep_last(s + xs, cap).len() == s.len() + xs.len(),
{
    lemma_keep_last_len(s + xs, cap);
}

/// The length of `keep_last`.
pub proof fn lemma_keep_last_len<T>(s: Seq<T>, cap: nat)
    ensures
        keep_last(s, cap).len() <= cap,
        s.len() >= cap ==> keep_last(s, cap).len() == cap,
        s.len() <= cap ==> keep_last(s, cap).len() == s.len(),
{
}

} // verus!
