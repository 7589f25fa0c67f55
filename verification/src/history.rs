use std::collections::VecDeque;
use vstd::prelude::*;

verus! {

/// The history window after recording an access at time `ts`: the timestamp
/// is appended, and the oldest entry is dropped first once the window
/// already holds `k` timestamps.
pub open spec fn after_record(h: Seq<u64>, k: usize, ts: u64) -> Seq<u64> {
    if h.len() == k {
        h.subrange(1, h.len() as int).push(ts)
    } else {
        h.push(ts)
    }
}

/// Per-frame access history: a bounded FIFO of the last `k` access
/// timestamps of one frame, together with the frame's pin state.
pub struct LRUKNode {
    /// K parameter: distance is measured to the K-th most recent access.
    /// Copied from the owning replacer at creation and never changed.
    pub k: usize,
    /// At most `k` timestamps in ascending recency: the front is the K-th
    /// most recent access of the kept window, the back is the most recent.
    pub history: VecDeque<u64>,
    /// Whether this frame is currently allowed to be evicted.
    pub is_evictable: bool,
}

impl LRUKNode {
    /// Validity of a node stored under a replacer with window size `k`:
    /// the window matches and holds between one and `k` timestamps (a node
    /// is never empty, since creation happens alongside the first recorded
    /// access).
    pub open spec fn inv(self, k: usize) -> bool {
        &&& self.k == k
        &&& 1 <= self.history@.len() <= k
    }

    /// A frame is cold while it has fewer than `k` recorded accesses.
    pub open spec fn is_cold(self) -> bool {
        self.history@.len() < self.k
    }

    /// The most recent access timestamp (meaningful once the history is
    /// non-empty).
    pub open spec fn spec_last_ts(self) -> u64 {
        self.history@.last()
    }

    /// The K-th most recent access timestamp (meaningful only when the
    /// window is full, i.e. the frame is not cold).
    pub open spec fn spec_kth_ts(self) -> u64 {
        self.history@[0]
    }

    /// A fresh node: empty history, not evictable.
    pub fn new(k: usize) -> (n: Self)
        ensures
            n.k == k,
            n.history@ == Seq::<u64>::empty(),
            n.is_evictable == false,
    {
        LRUKNode { k, history: VecDeque::with_capacity(k), is_evictable: false }
    }

    /// Record a new access at timestamp `ts`, dropping the oldest entry
    /// first once the window already holds `k` timestamps.
    pub fn record_access(&mut self, ts: u64)
        requires
            old(self).k >= 1,
            old(self).history@.len() <= old(self).k,
        ensures
            final(self).k == old(self).k,
            final(self).is_evictable == old(self).is_evictable,
            final(self).history@ == after_record(old(self).history@, old(self).k, ts),
            final(self).history@.len() <= old(self).k,
            1 <= final(self).history@.len(),
            final(self).spec_last_ts() == ts,
    {
        if self.history.len() == self.k {
            self.history.pop_front();
        }
        self.history.push_back(ts);
    }

    /// Number of accesses currently remembered (at most `k`).
    pub fn len(&self) -> (n: usize)
        ensures
            n == self.history@.len(),
    {
        self.history.len()
    }

    /// Most recent access time, if any access was recorded.
    pub fn last_ts(&self) -> (r: Option<u64>)
        ensures
            r == if self.history@.len() == 0 {
                Option::<u64>::None
            } else {
                Option::Some(self.spec_last_ts())
            },
    {
        let n = self.history.len();
        if n == 0 {
            None
        } else {
            Some(self.history[n - 1])
        }
    }

    /// K-th most recent access time: present exactly when the window is
    /// full, absent while the frame is still cold.
    pub fn kth_ts(&self) -> (r: Option<u64>)
        requires
            self.k >= 1,
        ensures
            r == if self.history@.len() == self.k as int {
                Option::Some(self.spec_kth_ts())
            } else {
                Option::<u64>::None
            },
    {
        if self.history.len() == self.k {
            Some(self.history[0])
        } else {
            None
        }
    }
}

} // verus!
