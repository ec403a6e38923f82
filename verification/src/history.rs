//! Fixed-capacity rolling history for chart data.
//!
//! Each metric (CPU usage, memory usage, network up/down) keeps the last
//! `HISTORY_SIZE` samples, oldest first.  A buffer is created pre-seeded with
//! zeros, so its length is exactly `HISTORY_SIZE` from the start; every push
//! evicts the oldest sample.

use std::collections::VecDeque;
use vstd::prelude::*;

verus! {

/// Number of samples each history buffer retains.
pub const HISTORY_SIZE: usize = 120;

/// A fixed-capacity, oldest-first sample buffer.
pub struct HistoryBuffer {
    data: VecDeque<u64>,
}

impl HistoryBuffer {
    /// The retained samples, oldest first.
    pub closed spec fn view(&self) -> Seq<u64> {
        self.data@
    }

    /// A buffer is always full: initialization seeds it with zeros and a push
    /// evicts the oldest sample.
    pub open spec fn wf(&self) -> bool {
        self@.len() == HISTORY_SIZE
    }

    /// A new buffer holds `HISTORY_SIZE` zero samples.
    pub fn new() -> (r: HistoryBuffer)
        ensures
            r.wf(),
            r@ == Seq::<u64>::new(HISTORY_SIZE as nat, |i: int| 0u64),
    {
        let mut data: VecDeque<u64> = VecDeque::new();
        let mut i: usize = 0;
        while i < HISTORY_SIZE
            invariant
                i <= HISTORY_SIZE,
                data@ == Seq::<u64>::new(i as nat, |j: int| 0u64),
            decreases HISTORY_SIZE - i,
        {
            data.push_back(0);
            i = i + 1;
            proof {
                assert(data@ =~= Seq::<u64>::new(i as nat, |j: int| 0u64));
            }
        }
        HistoryBuffer { data }
    }

    /// Appends the newest sample, evicting the oldest: the buffer stays at
    /// `HISTORY_SIZE` samples and keeps them oldest first.
    pub fn push(&mut self, sample: u64)
        requires
            old(self).wf(),
        ensures
            final(self).wf(),
            final(self)@ == old(self)@.drop_first().push(sample),
    {
        let _ = self.data.pop_front();
        self.data.push_back(sample);
    }

    /// The number of retained samples; always `HISTORY_SIZE`.
    pub fn len(&self) -> (r: usize)
        ensures
            r == self@.len(),
    {
        self.data.len()
    }

    /// The sample at position `i`, where position 0 is the oldest.
    pub fn get(&self, i: usize) -> (r: u64)
        requires
            i < self@.len(),
        ensures
            r == self@[i as int],
    {
        self.data[i]
    }

    /// All retained samples as a vector, oldest first.
    pub fn samples(&self) -> (r: Vec<u64>)
        ensures
            r@ == self@,
    {
        let mut out: Vec<u64> = Vec::new();
        let mut i: usize = 0;
        while i < self.data.len()
            invariant
                i <= self.data@.len(),
                out@ == self.data@.take(i as int),
            decreases self.data@.len() - i,
        {
            out.push(self.data[i]);
            i = i + 1;
            proof {
                assert(out@ =~= self.data@.take(i as int));
            }
        }
        proof {
            assert(out@ =~= self.data@);
        }
        out
    }
}

} // verus!
