use vstd::prelude::*;

use crate::error::CustomError;
use crate::error::CustomResult;
use crate::history::LRUKNode;
use crate::history::after_record;
use crate::order::better;
use crate::order::evicts_before;
use crate::order::lemma_order_total;
use crate::order::lemma_order_trans;

verus! {

broadcast use vstd::string::to_string_from_display_ensures_for_str;

/// Opaque identifier of a poolable frame. Uniqueness is required; its value
/// carries no meaning beyond identity and the final eviction tie-break.
pub type FrameId = usize;

// --- Spec-level view of the registry ------------------------------------
//
// The registry is a sequence of (frame id, node) entries with pairwise
// distinct ids, so it denotes a finite mapping from frame id to node. The
// helpers below are the vocabulary all contracts are stated in.

/// Whether some entry of `s` carries frame `id`.
pub open spec fn has_frame(s: Seq<(FrameId, LRUKNode)>, id: FrameId) -> bool {
    exists|j: int| 0 <= j < s.len() && (#[trigger] s[j]).0 == id
}

/// The index of the entry carrying frame `id` (unique when ids are
/// pairwise distinct).
pub open spec fn frame_index(s: Seq<(FrameId, LRUKNode)>, id: FrameId) -> int {
    choose|j: int| 0 <= j < s.len() && (#[trigger] s[j]).0 == id
}

/// The node stored for frame `id`.
pub open spec fn node_of(s: Seq<(FrameId, LRUKNode)>, id: FrameId) -> LRUKNode {
    s[frame_index(s, id)].1
}

/// Pairwise distinct frame ids: the registry is a genuine mapping.
pub open spec fn ids_unique(s: Seq<(FrameId, LRUKNode)>) -> bool {
    forall|i: int, j: int|
        0 <= i < j < s.len() ==> (#[trigger] s[i]).0 != (#[trigger] s[j]).0
}

/// The number of entries whose frame is currently evictable, by full scan.
pub open spec fn count_evictable(s: Seq<(FrameId, LRUKNode)>) -> nat
    decreases s.len(),
{
    if s.len() == 0 {
        0
    } else {
        count_evictable(s.drop_last()) + (if s.last().1.is_evictable {
            1nat
        } else {
            0nat
        })
    }
}

/// The logical clock advances by exactly one per recorded access, wrapping
/// to zero at the top of the 64-bit range instead of failing.
pub open spec fn wrapping_inc(t: u64) -> u64 {
    if t == u64::MAX {
        0
    } else {
        (t + 1) as u64
    }
}

// --- Lemmas about the registry helpers -----------------------------------

/// With pairwise distinct ids, the entry at index `i` is the one and only
/// witness for its own frame id.
pub proof fn lemma_frame_index(s: Seq<(FrameId, LRUKNode)>, i: int)
    requires
        ids_unique(s),
        0 <= i < s.len(),
    ensures
        has_frame(s, s[i].0),
        frame_index(s, s[i].0) == i,
        node_of(s, s[i].0) == s[i].1,
{
    assert(has_frame(s, s[i].0));
    let j = frame_index(s, s[i].0);
    assert(0 <= j < s.len() && s[j].0 == s[i].0);
    if j < i {
        assert(s[j].0 != s[i].0);
    } else if i < j {
        assert(s[i].0 != s[j].0);
    }
}

pub proof fn lemma_count_le_len(s: Seq<(FrameId, LRUKNode)>)
    ensures
        count_evictable(s) <= s.len(),
    decreases s.len(),
{
    if s.len() > 0 {
        lemma_count_le_len(s.drop_last());
    }
}

pub proof fn lemma_count_push(s: Seq<(FrameId, LRUKNode)>, p: (FrameId, LRUKNode))
    ensures
        count_evictable(s.push(p)) == count_evictable(s) + (if p.1.is_evictable {
            1nat
        } else {
            0nat
        }),
{
    assert(s.push(p).drop_last() =~= s);
    assert(s.push(p).last() == p);
}

pub proof fn lemma_count_update(s: Seq<(FrameId, LRUKNode)>, i: int, p: (FrameId, LRUKNode))
    requires
        0 <= i < s.len(),
    ensures
        count_evictable(s.update(i, p)) == count_evictable(s) - (if s[i].1.is_evictable {
            1int
        } else {
            0int
        }) + (if p.1.is_evictable {
            1int
        } else {
            0int
        }),
    decreases s.len(),
{
    let t = s.update(i, p);
    if i == s.len() - 1 {
        assert(t.drop_last() =~= s.drop_last());
        assert(t.last() == p);
    } else {
        lemma_count_update(s.drop_last(), i, p);
        assert(t.drop_last() =~= s.drop_last().update(i, p));
        assert(t.last() == s.last());
    }
}

pub proof fn lemma_count_remove(s: Seq<(FrameId, LRUKNode)>, i: int)
    requires
        0 <= i < s.len(),
    ensures
        count_evictable(s.remove(i)) == count_evictable(s) - (if s[i].1.is_evictable {
            1int
        } else {
            0int
        }),
    decreases s.len(),
{
    let t = s.remove(i);
    if i == s.len() - 1 {
        assert(t =~= s.drop_last());
    } else {
        lemma_count_remove(s.drop_last(), i);
        assert(t.drop_last() =~= s.drop_last().remove(i));
        assert(t.last() == s.last());
    }
}

pub proof fn lemma_count_pos(s: Seq<(FrameId, LRUKNode)>, i: int)
    requires
        0 <= i < s.len(),
        s[i].1.is_evictable,
    ensures
        count_evictable(s) >= 1,
    decreases s.len(),
{
    if i < s.len() - 1 {
        assert(s.drop_last()[i] == s[i]);
        lemma_count_pos(s.drop_last(), i);
    }
}

/// The evictable count is zero exactly when no entry is evictable: the
/// maintained counter cannot drift from what a full scan would find.
pub proof fn lemma_count_zero_iff_none_evictable(s: Seq<(FrameId, LRUKNode)>)
    ensures
        count_evictable(s) == 0 <==> (forall|i: int|
            0 <= i < s.len() ==> !(#[trigger] s[i]).1.is_evictable),
    decreases s.len(),
{
    if s.len() > 0 {
        lemma_count_zero_iff_none_evictable(s.drop_last());
        if count_evictable(s) == 0 {
            assert forall|i: int| 0 <= i < s.len() implies !(#[trigger] s[i]).1.is_evictable by {
                if i < s.len() - 1 {
                    assert(s.drop_last()[i] == s[i]);
                } else {
                    assert(s[i] == s.last());
                }
            }
        }
        if forall|i: int| 0 <= i < s.len() ==> !(#[trigger] s[i]).1.is_evictable {
            assert forall|i: int|
                0 <= i < s.drop_last().len() implies !(#[trigger] s.drop_last()[i]).1.is_evictable by {
                assert(s.drop_last()[i] == s[i]);
            }
            assert(!s.last().1.is_evictable);
        }
    }
}

/// Updating the entry at index `i` without changing its frame id keeps the
/// registry a mapping, tracks the same frames, and changes only that frame's
/// node.
pub proof fn lemma_update_frame(s: Seq<(FrameId, LRUKNode)>, i: int, p: (FrameId, LRUKNode))
    requires
        ids_unique(s),
        0 <= i < s.len(),
        p.0 == s[i].0,
    ensures
        ids_unique(s.update(i, p)),
        forall|id: FrameId| has_frame(s.update(i, p), id) <==> has_frame(s, id),
        node_of(s.update(i, p), p.0) == p.1,
        forall|id: FrameId| #![auto]
            id != p.0 && has_frame(s, id) ==> node_of(s.update(i, p), id) == node_of(s, id),
{
    let t = s.update(i, p);
    assert(forall|j: int| 0 <= j < s.len() ==> (#[trigger] t[j]).0 == s[j].0);
    assert forall|id: FrameId| has_frame(t, id) <==> has_frame(s, id) by {
        if has_frame(t, id) {
            let j = choose|j: int| 0 <= j < t.len() && t[j].0 == id;
            assert(s[j].0 == id);
        }
        if has_frame(s, id) {
            let j = choose|j: int| 0 <= j < s.len() && s[j].0 == id;
            assert(t[j].0 == id);
        }
    }
    lemma_frame_index(t, i);
    assert forall|id: FrameId|
        id != p.0 && has_frame(s, id) implies node_of(t, id) == node_of(s, id) by {
        let j = frame_index(s, id);
        assert(0 <= j < s.len() && s[j].0 == id);
        assert(j != i);
        assert(t[j] == s[j]);
        lemma_frame_index(s, j);
        lemma_frame_index(t, j);
    }
}

/// Appending an entry for a frame not yet tracked keeps the registry a
/// mapping, adds exactly that frame, and leaves every other node unchanged.
pub proof fn lemma_push_frame(s: Seq<(FrameId, LRUKNode)>, p: (FrameId, LRUKNode))
    requires
        ids_unique(s),
        !has_frame(s, p.0),
    ensures
        ids_unique(s.push(p)),
        has_frame(s.push(p), p.0),
        node_of(s.push(p), p.0) == p.1,
        forall|id: FrameId| #![auto]
            id != p.0 ==> (has_frame(s.push(p), id) <==> has_frame(s, id)),
        forall|id: FrameId| #![auto]
            id != p.0 && has_frame(s, id) ==> node_of(s.push(p), id) == node_of(s, id),
{
    let t = s.push(p);
    assert(forall|j: int| 0 <= j < s.len() ==> (#[trigger] t[j]) == s[j]);
    assert(t[s.len() as int] == p);
    assert forall|i: int, j: int|
        0 <= i < j < t.len() implies (#[trigger] t[i]).0 != (#[trigger] t[j]).0 by {
        if j < s.len() {
        } else {
            assert(t[j] == p);
            assert(t[i] == s[i]);
            if t[i].0 == p.0 {
                assert(has_frame(s, p.0));
            }
        }
    }
    lemma_frame_index(t, s.len() as int);
    assert forall|id: FrameId|
        id != p.0 implies (has_frame(t, id) <==> has_frame(s, id)) by {
        if has_frame(t, id) {
            let j = choose|j: int| 0 <= j < t.len() && t[j].0 == id;
            assert(j < s.len());
            assert(s[j].0 == id);
        }
        if has_frame(s, id) {
            let j = choose|j: int| 0 <= j < s.len() && s[j].0 == id;
            assert(t[j].0 == id);
        }
    }
    assert forall|id: FrameId|
        id != p.0 && has_frame(s, id) implies node_of(t, id) == node_of(s, id) by {
        let j = frame_index(s, id);
        assert(0 <= j < s.len() && s[j].0 == id);
        lemma_frame_index(s, j);
        lemma_frame_index(t, j);
    }
}

/// Removing the entry at index `i` keeps the registry a mapping, stops
/// tracking exactly that frame, and leaves every other node unchanged.
pub proof fn lemma_remove_frame(s: Seq<(FrameId, LRUKNode)>, i: int)
    requires
        ids_unique(s),
        0 <= i < s.len(),
    ensures
        ids_unique(s.remove(i)),
        !has_frame(s.remove(i), s[i].0),
        forall|id: FrameId| #![auto]
            id != s[i].0 ==> (has_frame(s.remove(i), id) <==> has_frame(s, id)),
        forall|id: FrameId| #![auto]
            id != s[i].0 && has_frame(s, id) ==> node_of(s.remove(i), id) == node_of(s, id),
{
    let t = s.remove(i);
    assert(forall|j: int| 0 <= j < i ==> (#[trigger] t[j]) == s[j]);
    assert(forall|j: int| i <= j < t.len() ==> (#[trigger] t[j]) == s[j + 1]);
    assert forall|m: int, n: int|
        0 <= m < n < t.len() implies (#[trigger] t[m]).0 != (#[trigger] t[n]).0 by {
        let sm: int = if m < i { m } else { m + 1 };
        let sn: int = if n < i { n } else { n + 1 };
        assert(t[m] == s[sm]);
        assert(t[n] == s[sn]);
    }
    assert forall|j: int| 0 <= j < t.len() implies t[j].0 != s[i].0 by {
        let sj: int = if j < i { j } else { j + 1 };
        assert(t[j] == s[sj]);
    }
    assert forall|id: FrameId|
        id != s[i].0 implies (has_frame(t, id) <==> has_frame(s, id)) by {
        if has_frame(t, id) {
            let j = choose|j: int| 0 <= j < t.len() && t[j].0 == id;
            let sj: int = if j < i { j } else { j + 1 };
            assert(s[sj].0 == id);
        }
        if has_frame(s, id) {
            let j = choose|j: int| 0 <= j < s.len() && s[j].0 == id;
            assert(j != i);
            if j < i {
                assert(t[j].0 == id);
            } else {
                assert(t[j - 1] == s[j]);
                assert(t[j - 1].0 == id);
            }
        }
    }
    assert forall|id: FrameId|
        id != s[i].0 && has_frame(s, id) implies node_of(t, id) == node_of(s, id) by {
        assert(has_frame(t, id));
        let m = frame_index(t, id);
        assert(0 <= m < t.len() && t[m].0 == id);
        let sm: int = if m < i { m } else { m + 1 };
        assert(t[m] == s[sm]);
        lemma_frame_index(s, sm);
        lemma_frame_index(t, m);
    }
}

// --- The replacer ---------------------------------------------------------

/// LRU-K eviction tracker for a fixed-capacity frame pool.
pub struct LRUKReplacer {
    /// Count of evictable frames currently tracked.
    pub current_size: usize,
    /// Maximum number of frames the replacer can track.
    pub capacity: usize,
    /// K parameter.
    pub k: usize,
    /// Registry of tracked frames: id paired with its access history.
    pub node_store: Vec<(FrameId, LRUKNode)>,
    /// Monotonic logical time for ordering accesses.
    pub current_timestamp: u64,
}

impl LRUKReplacer {
    /// Whether frame `id` is currently tracked.
    pub open spec fn tracks(self, id: FrameId) -> bool {
        has_frame(self.node_store@, id)
    }

    /// The node currently stored for frame `id`.
    pub open spec fn node(self, id: FrameId) -> LRUKNode {
        node_of(self.node_store@, id)
    }

    /// The invariants that hold between any two operations:
    /// - the parameters are positive and at most `capacity` frames are
    ///   tracked;
    /// - the registry is a mapping (pairwise distinct ids);
    /// - every stored history holds between one and `k` timestamps;
    /// - `current_size` equals the number of evictable entries found by a
    ///   full scan.
    pub open spec fn wf(self) -> bool {
        &&& self.k >= 1
        &&& self.capacity >= 1
        &&& self.node_store@.len() <= self.capacity
        &&& ids_unique(self.node_store@)
        &&& forall|i: int|
            0 <= i < self.node_store@.len() ==> (#[trigger] self.node_store@[i]).1.inv(self.k)
        &&& self.current_size == count_evictable(self.node_store@)
    }

    /// Create a new LRU-K replacer tracking up to `capacity` frames with
    /// window size `k`. Zero capacity or zero `k` is a programmer error and
    /// is excluded outright.
    pub fn new(capacity: usize, k: usize) -> (r: Self)
        requires
            capacity >= 1,
            k >= 1,
        ensures
            r.wf(),
            r.capacity == capacity,
            r.k == k,
            r.node_store@.len() == 0,
            r.current_timestamp == 0,
            r.current_size == 0,
    {
        LRUKReplacer {
            current_size: 0,
            capacity,
            k,
            node_store: Vec::new(),
            current_timestamp: 0,
        }
    }

    /// Index of the entry tracking `frame_id`, if any.
    fn find(&self, frame_id: FrameId) -> (r: Option<usize>)
        ensures
            match r {
                Some(i) => (i as int) < self.node_store@.len() && self.node_store@[i as int].0
                    == frame_id,
                None => !self.tracks(frame_id),
            },
    {
        let mut i: usize = 0;
        while i < self.node_store.len()
            invariant
                i <= self.node_store@.len(),
                forall|j: int| 0 <= j < i ==> (#[trigger] self.node_store@[j]).0 != frame_id,
            decreases self.node_store@.len() - i,
        {
            let entry = &self.node_store[i];
            if entry.0 == frame_id {
                return Some(i);
            }
            i = i + 1;
        }
        None
    }

    /// Record an access to `frame_id` at the next logical timestamp.
    ///
    /// An already-tracked frame always succeeds: its history is extended,
    /// bounded to the last `k` timestamps. A new frame is registered with
    /// the fresh timestamp as its whole history and is not evictable —
    /// unless the registry is already at capacity, in which case the call
    /// fails and the tracker is left entirely unchanged.
    pub fn record_access(&mut self, frame_id: FrameId) -> (r: CustomResult<()>)
        requires
            old(self).wf(),
        ensures
            final(self).wf(),
            final(self).capacity == old(self).capacity,
            final(self).k == old(self).k,
            r is Err <==> !old(self).tracks(frame_id) && old(self).node_store@.len() == old(
                self,
            ).capacity,
            r matches Err(e) ==> *final(self) == *old(self) && (e matches CustomError::Internal(m)
                && m@ == "replacer bookkeeping exceeds capacity"@),
            r is Ok ==> {
                &&& final(self).current_timestamp == wrapping_inc(old(self).current_timestamp)
                &&& final(self).current_size == old(self).current_size
                &&& final(self).tracks(frame_id)
                &&& forall|id: FrameId|
                    id != frame_id ==> (final(self).tracks(id) <==> old(self).tracks(id))
                &&& forall|id: FrameId| #![auto]
                    id != frame_id && old(self).tracks(id) ==> final(self).node(id) == old(
                        self,
                    ).node(id)
                &&& final(self).node(frame_id).k == old(self).k
            },
            r is Ok && old(self).tracks(frame_id) ==> {
                &&& final(self).node_store@.len() == old(self).node_store@.len()
                &&& final(self).node(frame_id).history@ == after_record(
                    old(self).node(frame_id).history@,
                    old(self).k,
                    wrapping_inc(old(self).current_timestamp),
                )
                &&& final(self).node(frame_id).is_evictable == old(self).node(
                    frame_id,
                ).is_evictable
            },
            r is Ok && !old(self).tracks(frame_id) ==> {
                &&& final(self).node_store@.len() == old(self).node_store@.len() + 1
                &&& final(self).node(frame_id).history@ =~= seq![
                    wrapping_inc(old(self).current_timestamp),
                ]
                &&& final(self).node(frame_id).is_evictable == false
            },
    {
        match self.find(frame_id) {
            Some(i) => {
                let ghost s = old(self).node_store@;
                proof {
                    lemma_frame_index(s, i as int);
                }
                let next = match self.current_timestamp.checked_add(1) {
                    Some(next) => next,
                    None => 0,
                };
                self.current_timestamp = next;
                let (id, mut node) = self.node_store.remove(i);
                node.record_access(next);
                let ghost p = (id, node);
                self.node_store.insert(i, (id, node));
                proof {
                    assert(self.node_store@ =~= s.update(i as int, p));
                    lemma_update_frame(s, i as int, p);
                    lemma_count_update(s, i as int, p);
                }
                Ok(())
            },
            None => {
                if self.node_store.len() >= self.capacity {
                    return Err(
                        CustomError::Internal("replacer bookkeeping exceeds capacity".to_string()),
                    );
                }
                let ghost s = old(self).node_store@;
                let next = match self.current_timestamp.checked_add(1) {
                    Some(next) => next,
                    None => 0,
                };
                self.current_timestamp = next;
                let mut node = LRUKNode::new(self.k);
                node.record_access(next);
                let ghost p = (frame_id, node);
                self.node_store.push((frame_id, node));
                proof {
                    lemma_push_frame(s, p);
                    lemma_count_push(s, p);
                }
                Ok(())
            },
        }
    }

    /// Set whether `frame_id` may be evicted, adjusting the evictable count
    /// on a genuine transition; repeating a call with the same flag changes
    /// nothing further. Fails, leaving the tracker unchanged, when the frame
    /// is not tracked.
    pub fn set_evictable(&mut self, frame_id: FrameId, set_evictable: bool) -> (r: CustomResult<
        (),
    >)
        requires
            old(self).wf(),
        ensures
            final(self).wf(),
            final(self).capacity == old(self).capacity,
            final(self).k == old(self).k,
            final(self).current_timestamp == old(self).current_timestamp,
            r is Err <==> !old(self).tracks(frame_id),
            r matches Err(e) ==> *final(self) == *old(self) && (e matches CustomError::Internal(m)
                && m@ == "frame not found"@),
            r is Ok ==> {
                &&& final(self).node_store@.len() == old(self).node_store@.len()
                &&& forall|id: FrameId| final(self).tracks(id) <==> old(self).tracks(id)
                &&& forall|id: FrameId| #![auto]
                    id != frame_id && old(self).tracks(id) ==> final(self).node(id) == old(
                        self,
                    ).node(id)
                &&& final(self).node(frame_id).is_evictable == set_evictable
                &&& final(self).node(frame_id).history@ == old(self).node(frame_id).history@
                &&& final(self).node(frame_id).k == old(self).node(frame_id).k
                &&& final(self).current_size == old(self).current_size - (if old(self).node(
                    frame_id,
                ).is_evictable {
                    1int
                } else {
                    0int
                }) + (if set_evictable {
                    1int
                } else {
                    0int
                })
            },
    {
        match self.find(frame_id) {
            None => Err(CustomError::Internal("frame not found".to_string())),
            Some(i) => {
                let ghost s = old(self).node_store@;
                proof {
                    lemma_frame_index(s, i as int);
                }
                let (id, mut node) = self.node_store.remove(i);
                let was = node.is_evictable;
                node.is_evictable = set_evictable;
                let ghost p = (id, node);
                self.node_store.insert(i, (id, node));
                proof {
                    assert(self.node_store@ =~= s.update(i as int, p));
                    lemma_update_frame(s, i as int, p);
                    lemma_count_update(s, i as int, p);
                    lemma_count_le_len(self.node_store@);
                    if was {
                        lemma_count_pos(s, i as int);
                    }
                }
                if set_evictable && !was {
                    self.current_size = self.current_size + 1;
                } else if was && !set_evictable {
                    self.current_size = self.current_size - 1;
                }
                Ok(())
            },
        }
    }

    /// Forcibly stop tracking `frame_id`, outside the eviction policy.
    /// An untracked id succeeds as a no-op (removal is idempotent); a
    /// tracked but pinned frame is refused, since it is still in active
    /// use, and the tracker is left unchanged.
    pub fn remove(&mut self, frame_id: FrameId) -> (r: CustomResult<()>)
        requires
            old(self).wf(),
        ensures
            final(self).wf(),
            final(self).capacity == old(self).capacity,
            final(self).k == old(self).k,
            final(self).current_timestamp == old(self).current_timestamp,
            r is Err <==> old(self).tracks(frame_id) && !old(self).node(frame_id).is_evictable,
            r matches Err(e) ==> *final(self) == *old(self) && (e matches CustomError::Internal(m)
                && m@ == "frame is not evictable"@),
            !old(self).tracks(frame_id) ==> r is Ok && *final(self) == *old(self),
            r is Ok && old(self).tracks(frame_id) ==> {
                &&& !final(self).tracks(frame_id)
                &&& forall|id: FrameId| #![auto]
                    id != frame_id ==> (final(self).tracks(id) <==> old(self).tracks(id))
                &&& forall|id: FrameId| #![auto]
                    id != frame_id && old(self).tracks(id) ==> final(self).node(id) == old(
                        self,
                    ).node(id)
                &&& final(self).node_store@.len() == old(self).node_store@.len() - 1
                &&& final(self).current_size == old(self).current_size - 1
            },
    {
        match self.find(frame_id) {
            None => Ok(()),
            Some(i) => {
                let ghost s = old(self).node_store@;
                proof {
                    lemma_frame_index(s, i as int);
                }
                let entry = &self.node_store[i];
                if !entry.1.is_evictable {
                    return Err(CustomError::Internal("frame is not evictable".to_string()));
                }
                proof {
                    lemma_count_pos(s, i as int);
                    lemma_count_remove(s, i as int);
                    lemma_remove_frame(s, i as int);
                }
                let _ = self.node_store.remove(i);
                self.current_size = self.current_size - 1;
                Ok(())
            },
        }
    }

    /// Index of the eviction victim: the evictable entry that precedes every
    /// other evictable entry in the eviction order; absent when no entry is
    /// evictable.
    fn pick_victim(&self) -> (r: Option<usize>)
        requires
            self.wf(),
        ensures
            match r {
                None => forall|m: int|
                    0 <= m < self.node_store@.len() ==> !(#[trigger] self.node_store@[m]).1.is_evictable,
                Some(j) => {
                    &&& (j as int) < self.node_store@.len()
                    &&& self.node_store@[j as int].1.is_evictable
                    &&& forall|m: int|
                        0 <= m < self.node_store@.len() && m != j as int && (
                        #[trigger] self.node_store@[m]).1.is_evictable ==> evicts_before(
                            self.current_timestamp,
                            self.node_store@[j as int].0,
                            self.node_store@[j as int].1,
                            self.node_store@[m].0,
                            self.node_store@[m].1,
                        )
                },
            },
    {
        let ghost s = self.node_store@;
        let ghost clock = self.current_timestamp;
        let mut best: Option<usize> = None;
        let mut i: usize = 0;
        while i < self.node_store.len()
            invariant
                self.wf(),
                s == self.node_store@,
                clock == self.current_timestamp,
                i <= s.len(),
                match best {
                    None => forall|m: int| 0 <= m < i ==> !(#[trigger] s[m]).1.is_evictable,
                    Some(j) => {
                        &&& (j as int) < i
                        &&& s[j as int].1.is_evictable
                        &&& forall|m: int|
                            0 <= m < i && m != j as int && (#[trigger] s[m]).1.is_evictable
                                ==> evicts_before(clock, s[j as int].0, s[j as int].1, s[m].0, s[m].1)
                    },
                },
            decreases s.len() - i,
        {
            let cand = &self.node_store[i];
            if cand.1.is_evictable {
                match best {
                    None => {
                        best = Some(i);
                    },
                    Some(j) => {
                        let cur = &self.node_store[j];
                        if better(self.current_timestamp, cand.0, &cand.1, cur.0, &cur.1) {
                            proof {
                                assert forall|m: int|
                                    0 <= m < i && m != i as int && (#[trigger] s[m]).1.is_evictable
                                        implies evicts_before(
                                        clock,
                                        s[i as int].0,
                                        s[i as int].1,
                                        s[m].0,
                                        s[m].1,
                                    ) by {
                                    if m != j as int {
                                        lemma_order_trans(
                                            clock,
                                            s[i as int].0,
                                            s[i as int].1,
                                            s[j as int].0,
                                            s[j as int].1,
                                            s[m].0,
                                            s[m].1,
                                        );
                                    }
                                }
                            }
                            best = Some(i);
                        } else {
                            proof {
                                assert(s[j as int].0 != s[i as int].0);
                                lemma_order_total(
                                    clock,
                                    s[i as int].0,
                                    s[i as int].1,
                                    s[j as int].0,
                                    s[j as int].1,
                                );
                            }
                        }
                    },
                }
            }
            i = i + 1;
        }
        best
    }

    /// Select, remove and return the eviction victim: among evictable frames
    /// the one with the largest backward K-distance, cold frames counting as
    /// infinitely distant; ties go to the older most recent access, then to
    /// the smaller frame id. Returns `None`, changing nothing, when no frame
    /// is evictable — a normal outcome, not an error.
    pub fn evict(&mut self) -> (r: Option<FrameId>)
        requires
            old(self).wf(),
        ensures
            final(self).wf(),
            final(self).capacity == old(self).capacity,
            final(self).k == old(self).k,
            final(self).current_timestamp == old(self).current_timestamp,
            r is None <==> count_evictable(old(self).node_store@) == 0,
            r is None ==> *final(self) == *old(self),
            r matches Some(v) ==> {
                &&& old(self).tracks(v)
                &&& old(self).node(v).is_evictable
                &&& forall|id: FrameId| #![auto]
                    id != v && old(self).tracks(id) && old(self).node(id).is_evictable
                        ==> evicts_before(
                        old(self).current_timestamp,
                        v,
                        old(self).node(v),
                        id,
                        old(self).node(id),
                    )
                &&& !final(self).tracks(v)
                &&& forall|id: FrameId| #![auto]
                    id != v ==> (final(self).tracks(id) <==> old(self).tracks(id))
                &&& forall|id: FrameId| #![auto]
                    id != v && old(self).tracks(id) ==> final(self).node(id) == old(self).node(id)
                &&& final(self).node_store@.len() == old(self).node_store@.len() - 1
                &&& final(self).current_size == old(self).current_size - 1
            },
    {
        let ghost s = old(self).node_store@;
        match self.pick_victim() {
            None => {
                proof {
                    lemma_count_zero_iff_none_evictable(s);
                }
                None
            },
            Some(j) => {
                let entry = &self.node_store[j];
                let victim = entry.0;
                proof {
                    lemma_frame_index(s, j as int);
                    lemma_count_pos(s, j as int);
                    lemma_count_remove(s, j as int);
                    lemma_remove_frame(s, j as int);
                    assert forall|id: FrameId| #![auto]
                        id != victim && has_frame(s, id) && node_of(s, id).is_evictable
                            implies evicts_before(
                            old(self).current_timestamp,
                            victim,
                            node_of(s, victim),
                            id,
                            node_of(s, id),
                        ) by {
                        let m = frame_index(s, id);
                        assert(0 <= m < s.len() && s[m].0 == id);
                        lemma_frame_index(s, m);
                        assert(m != j as int);
                    }
                }
                let _ = self.node_store.remove(j);
                self.current_size = self.current_size - 1;
                Some(victim)
            },
        }
    }

    /// Return the number of evictable frames, in constant time. Under the
    /// invariant this equals the count a full scan of the registry finds.
    pub fn size(&self) -> (n: usize)
        ensures
            n == self.current_size,
            self.wf() ==> n == count_evictable(self.node_store@),
    {
        self.current_size
    }
}

} // verus!
