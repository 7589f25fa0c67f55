use lru_k::CustomError;
use lru_k::FrameId;
use lru_k::LRUKReplacer;

fn drain(r: &mut LRUKReplacer) -> Vec<FrameId> {
    let mut out = Vec::new();
    while let Some(id) = r.evict() {
        out.push(id);
    }
    out
}

fn scan_evictable(r: &LRUKReplacer) -> usize {
    r.node_store.iter().filter(|p| p.1.is_evictable).count()
}

// A failed record_access over capacity leaves the tracker entirely
// unchanged: the already-tracked frames keep their histories and are evicted
// exactly as if the failed call had never happened.
#[test]
fn capacity_error_leaves_state_unchanged() {
    let mut r = LRUKReplacer::new(2, 2);
    r.record_access(10).unwrap();
    r.record_access(11).unwrap();

    assert!(r.record_access(12).is_err());
    // 12 was not registered: it cannot be pinned/unpinned.
    assert!(r.set_evictable(12, true).is_err());

    // 10 and 11 are still tracked and unaffected.
    r.set_evictable(10, true).unwrap();
    r.set_evictable(11, true).unwrap();
    assert_eq!(r.size(), 2);
    assert_eq!(drain(&mut r), vec![10, 11]);
    assert_eq!(r.evict(), None);
}

// Each error condition, with its triggering input.
#[test]
fn error_conditions_are_distinguished() {
    let mut r = LRUKReplacer::new(1, 2);

    // Tracking-capacity exceeded: a second distinct frame at capacity 1.
    r.record_access(1).unwrap();
    match r.record_access(2).unwrap_err() {
        CustomError::Internal(s) => assert!(s.contains("capacity")),
        _ => panic!("unexpected error variant"),
    }

    // Frame-not-found: pinning an id never recorded.
    match r.set_evictable(5, true).unwrap_err() {
        CustomError::Internal(s) => assert!(s.contains("not found")),
        _ => panic!("unexpected error variant"),
    }

    // Frame-not-evictable: removing a pinned frame.
    match r.remove(1).unwrap_err() {
        CustomError::Internal(s) => assert!(s.contains("not evictable")),
        _ => panic!("unexpected error variant"),
    }
}

// Removal of an untracked id is idempotent: twice in a row is safe and
// changes nothing, before or after the frame ever existed.
#[test]
fn remove_untracked_twice_is_noop() {
    let mut r = LRUKReplacer::new(4, 2);
    assert!(r.remove(5).is_ok());
    assert!(r.remove(5).is_ok());
    assert_eq!(r.size(), 0);
    assert_eq!(scan_evictable(&r), 0);

    r.record_access(5).unwrap();
    r.set_evictable(5, true).unwrap();
    r.remove(5).unwrap();
    assert!(r.remove(5).is_ok());
    assert!(r.remove(5).is_ok());
    assert_eq!(r.size(), 0);
}

// Repeated identical set_evictable calls do not drift the evictable count.
#[test]
fn set_evictable_is_idempotent() {
    let mut r = LRUKReplacer::new(4, 2);
    r.record_access(1).unwrap();

    r.set_evictable(1, true).unwrap();
    r.set_evictable(1, true).unwrap();
    assert_eq!(r.size(), 1);
    assert_eq!(scan_evictable(&r), 1);

    r.set_evictable(1, false).unwrap();
    r.set_evictable(1, false).unwrap();
    assert_eq!(r.size(), 0);
    assert_eq!(scan_evictable(&r), 0);
}

// With k = 1 the K-th most recent access is the most recent one, so the
// policy degenerates to plain LRU on the last access.
#[test]
fn k_equal_one_behaves_as_lru() {
    let mut r = LRUKReplacer::new(8, 1);
    r.record_access(1).unwrap(); // ts 1
    r.record_access(2).unwrap(); // ts 2
    r.record_access(3).unwrap(); // ts 3
    r.record_access(1).unwrap(); // ts 4: frame 1 becomes the most recent
    for id in [1, 2, 3] {
        r.set_evictable(id, true).unwrap();
    }
    assert_eq!(drain(&mut r), vec![2, 3, 1]);
}

// The history window keeps only the last k timestamps: an old access beyond
// the window no longer influences the K-distance.
#[test]
fn history_window_drops_oldest_access() {
    let mut r = LRUKReplacer::new(8, 2);

    // Frame 1: accesses at ts 1, 2 -> window [1, 2].
    r.record_access(1).unwrap();
    r.record_access(1).unwrap();
    // Frame 2: accesses at ts 3, 4 -> window [3, 4].
    r.record_access(2).unwrap();
    r.record_access(2).unwrap();
    // Frame 1 again at ts 5: window slides to [2, 5].
    r.record_access(1).unwrap();

    r.set_evictable(1, true).unwrap();
    r.set_evictable(2, true).unwrap();

    // K-distances at clock 5: frame 1 -> 5 - 2 = 3, frame 2 -> 5 - 3 = 2.
    // Frame 1 is the staler one despite being touched most recently.
    assert_eq!(r.evict(), Some(1));
    assert_eq!(r.evict(), Some(2));
}

// The logical clock wraps to zero at the top of its range instead of
// failing; operation goes on deterministically.
#[test]
fn clock_wraps_to_zero_on_overflow() {
    let mut r = LRUKReplacer::new(4, 2);
    r.current_timestamp = u64::MAX;
    r.record_access(1).unwrap(); // ts wraps to 0
    r.record_access(2).unwrap(); // ts 1
    r.set_evictable(1, true).unwrap();
    r.set_evictable(2, true).unwrap();

    // Both are cold; frame 1 has the older last access (0 < 1).
    assert_eq!(r.evict(), Some(1));
    assert_eq!(r.evict(), Some(2));
    assert_eq!(r.size(), 0);
}

// A pinned frame is never chosen even when it is the only candidate left,
// and unpinning it afterwards makes it eligible again.
#[test]
fn pinned_sole_candidate_blocks_eviction() {
    let mut r = LRUKReplacer::new(4, 2);
    r.record_access(9).unwrap();
    assert_eq!(r.evict(), None);

    r.set_evictable(9, true).unwrap();
    r.set_evictable(9, false).unwrap();
    assert_eq!(r.evict(), None);
    assert_eq!(r.size(), 0);

    r.set_evictable(9, true).unwrap();
    assert_eq!(r.evict(), Some(9));
    assert_eq!(r.evict(), None);
}
