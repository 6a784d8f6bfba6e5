//! Fixed-capacity FIFO windows of samples.
//!
//! A window is pre-filled with zeros so a chart renders a full-width flat
//! line from the first frame; every refresh evicts the oldest sample and
//! appends one new sample, so the length never changes.

use vstd::prelude::*;

use std::collections::VecDeque;
use std::ops::Index;

use crate::HISTORY_LEN;

verus! {

/// What one push does to the contents of a window: the oldest sample leaves
/// in front, the new one enters at the back.
pub open spec fn pushed(w: Seq<u64>, sample: u64) -> Seq<u64> {
    w.drop_first().push(sample)
}

/// A window of `HISTORY_LEN` zero samples.
pub open spec fn zero_window() -> Seq<u64> {
    Seq::new(HISTORY_LEN as nat, |i: int| 0u64)
}

/// The contents after pushing `vs`, one after the other, into `w`.
pub open spec fn pushed_all(w: Seq<u64>, vs: Seq<u64>) -> Seq<u64>
    decreases vs.len(),
{
    if vs.len() == 0 {
        w
    } else {
        pushed_all(pushed(w, vs[0]), vs.drop_first())
    }
}

/// One bounded history window of samples, oldest first.
#[derive(Debug, Clone)]
pub struct History {
    q: VecDeque<u64>,
}

impl View for History {
    type V = Seq<u64>;

    closed spec fn view(&self) -> Seq<u64> {
        self.q@
    }
}

impl History {
    /// The length is exactly `HISTORY_LEN` at all times.
    pub open spec fn wf(&self) -> bool {
        self@.len() == HISTORY_LEN
    }

    /// A fresh window, pre-filled with zeros.
    pub fn new() -> (r: History)
        ensures
            r.wf(),
            r@ == zero_window(),
    {
        let mut q: VecDeque<u64> = VecDeque::with_capacity(HISTORY_LEN);
        let mut i: usize = 0;
        while i < HISTORY_LEN
            invariant
                i <= HISTORY_LEN,
                q@ == Seq::new(i as nat, |j: int| 0u64),
            decreases HISTORY_LEN - i,
        {
            q.push_back(0);
            i = i + 1;
            proof {
                assert(q@ =~= Seq::new(i as nat, |j: int| 0u64));
            }
        }
        proof {
            assert(q@ =~= zero_window());
        }
        History { q }
    }

    /// Evict the oldest sample and append `sample`; strict FIFO, the size
    /// never grows or shrinks.
    pub fn push(&mut self, sample: u64)
        requires
            old(self).wf(),
        ensures
            final(self).wf(),
            final(self)@ == pushed(old(self)@, sample),
    {
        let _ = self.q.pop_front();
        self.q.push_back(sample);
        proof {
            assert(self@ =~= pushed(old(self)@, sample));
        }
    }

    /// The number of samples held; always `HISTORY_LEN` for a well-formed
    /// window.
    pub fn len(&self) -> (r: usize)
        ensures
            r == self@.len(),
    {
        self.q.len()
    }

    /// The sample at position `i`, oldest first.
    pub fn get(&self, i: usize) -> (r: u64)
        requires
            i < self@.len(),
        ensures
            r == self@[i as int],
    {
        *self.q.index(i)
    }

    /// The newest sample.
    pub fn latest(&self) -> (r: u64)
        requires
            self@.len() > 0,
        ensures
            r == self@.last(),
    {
        let n = self.q.len();
        *self.q.index(n - 1)
    }
}

/// Pushing into a window of fixed length keeps the suffix: the result is the
/// old contents without their first `vs.len()` samples, followed by `vs`.
proof fn lemma_pushed_all_shifts(w: Seq<u64>, vs: Seq<u64>)
    requires
        vs.len() <= w.len(),
    ensures
        pushed_all(w, vs) =~= w.skip(vs.len() as int) + vs,
    decreases vs.len(),
{
    if vs.len() == 0 {
        assert(pushed_all(w, vs) =~= w.skip(0) + vs);
    } else {
        let w1 = pushed(w, vs[0]);
        lemma_pushed_all_shifts(w1, vs.drop_first());
        assert(w1.skip(vs.len() as int - 1) =~= w.skip(vs.len() as int).push(vs[0]));
        assert(w.skip(vs.len() as int).push(vs[0]) + vs.drop_first() =~= w.skip(
            vs.len() as int,
        ) + vs);
    }
}

/// FIFO law: pushing `v1 .. vK` (`K <= HISTORY_LEN`) into a freshly
/// initialized window leaves the last `K` samples equal to `v1 .. vK` in
/// order, preceded by zeros.
pub proof fn lemma_window_fifo(vs: Seq<u64>)
    requires
        vs.len() <= HISTORY_LEN,
    ensures
        pushed_all(zero_window(), vs).len() == HISTORY_LEN,
        forall|i: int|
            0 <= i < HISTORY_LEN - vs.len() ==> pushed_all(zero_window(), vs)[i] == 0,
        forall|i: int|
            0 <= i < vs.len() ==> pushed_all(zero_window(), vs)[HISTORY_LEN - vs.len() + i]
                == vs[i],
{
    lemma_pushed_all_shifts(zero_window(), vs);
}

} // verus!
