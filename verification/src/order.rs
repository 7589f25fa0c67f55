use vstd::prelude::*;

use crate::history::LRUKNode;

verus! {

/// Backward K-distance of a frame's history at logical time `clock`.
///
/// A cold frame (fewer than `k` recorded accesses) gets a sentinel distance
/// that is strictly larger than any achievable finite distance: finite
/// distances fit in 64 bits, the sentinel is the largest 128-bit value.
/// A K-th-most-recent timestamp that lies in the clock's future (possible
/// only after the clock wrapped around) saturates to distance zero.
pub open spec fn spec_k_dist(clock: u64, n: LRUKNode) -> int {
    if n.is_cold() {
        u128::MAX as int
    } else if n.spec_kth_ts() <= clock {
        clock - n.spec_kth_ts()
    } else {
        0
    }
}

/// The three-level eviction order: frame `a` is evicted in preference to
/// frame `b` when
/// 1. `a` has the strictly larger K-distance (infinite beats finite), or
/// 2. the distances tie and `a`'s most recent access is strictly older, or
/// 3. both tie and `a` has the smaller frame id.
///
/// On candidates with distinct ids this is a strict total order, which is
/// what makes victim selection deterministic.
pub open spec fn evicts_before(
    clock: u64,
    a_id: usize,
    a: LRUKNode,
    b_id: usize,
    b: LRUKNode,
) -> bool {
    ||| spec_k_dist(clock, a) > spec_k_dist(clock, b)
    ||| (spec_k_dist(clock, a) == spec_k_dist(clock, b) && a.spec_last_ts() < b.spec_last_ts())
    ||| (spec_k_dist(clock, a) == spec_k_dist(clock, b) && a.spec_last_ts() == b.spec_last_ts()
        && a_id < b_id)
}

/// Backward K-distance, executable form. The sentinel for cold frames is
/// `u128::MAX`, unreachable as a real distance since timestamps are 64-bit.
pub fn k_dist(clock: u64, n: &LRUKNode) -> (d: u128)
    requires
        1 <= n.history@.len() <= n.k,
    ensures
        d == spec_k_dist(clock, *n),
{
    match n.kth_ts() {
        None => u128::MAX,
        Some(kth) => {
            if kth <= clock {
                (clock - kth) as u128
            } else {
                0
            }
        },
    }
}

/// Decide whether frame `a` precedes frame `b` in the eviction order.
pub fn better(clock: u64, a_id: usize, a: &LRUKNode, b_id: usize, b: &LRUKNode) -> (r: bool)
    requires
        1 <= a.history@.len() <= a.k,
        1 <= b.history@.len() <= b.k,
    ensures
        r == evicts_before(clock, a_id, *a, b_id, *b),
{
    let da = k_dist(clock, a);
    let db = k_dist(clock, b);
    if da != db {
        da > db
    } else {
        let la = match a.last_ts() {
            Some(t) => t,
            None => 0,
        };
        let lb = match b.last_ts() {
            Some(t) => t,
            None => 0,
        };
        if la != lb {
            la < lb
        } else {
            a_id < b_id
        }
    }
}

/// The eviction order is total on distinct ids: of two candidates with
/// different frame ids, exactly one precedes the other. Together with
/// `lemma_order_trans` this makes the victim chosen by an eviction scan
/// unique, independent of scan order.
pub proof fn lemma_order_total(clock: u64, a_id: usize, a: LRUKNode, b_id: usize, b: LRUKNode)
    requires
        a_id != b_id,
    ensures
        evicts_before(clock, a_id, a, b_id, b) <==> !evicts_before(clock, b_id, b, a_id, a),
{
}

/// The eviction order is transitive.
pub proof fn lemma_order_trans(
    clock: u64,
    a_id: usize,
    a: LRUKNode,
    b_id: usize,
    b: LRUKNode,
    c_id: usize,
    c: LRUKNode,
)
    requires
        evicts_before(clock, a_id, a, b_id, b),
        evicts_before(clock, b_id, b, c_id, c),
    ensures
        evicts_before(clock, a_id, a, c_id, c),
{
}

/// A cold frame is always evicted in preference to a frame that has reached
/// `k` recorded accesses, regardless of any timestamps involved.
pub proof fn lemma_cold_before_warm(clock: u64, a_id: usize, a: LRUKNode, b_id: usize, b: LRUKNode)
    requires
        a.is_cold(),
        !b.is_cold(),
    ensures
        evicts_before(clock, a_id, a, b_id, b),
{
    assert(spec_k_dist(clock, b) <= u64::MAX as int);
}

/// Among two cold frames, the one whose most recent access is older is
/// evicted first, whatever their ids.
pub proof fn lemma_older_cold_first(clock: u64, a_id: usize, a: LRUKNode, b_id: usize, b: LRUKNode)
    requires
        a.is_cold(),
        b.is_cold(),
        a.spec_last_ts() < b.spec_last_ts(),
    ensures
        evicts_before(clock, a_id, a, b_id, b),
{
}

/// Frames with equal K-distance and equal most recent access are ordered by
/// frame id, smaller first.
pub proof fn lemma_tie_break_by_id(clock: u64, a_id: usize, a: LRUKNode, b_id: usize, b: LRUKNode)
    requires
        spec_k_dist(clock, a) == spec_k_dist(clock, b),
        a.spec_last_ts() == b.spec_last_ts(),
        a_id < b_id,
    ensures
        evicts_before(clock, a_id, a, b_id, b),
{
}

} // verus!
