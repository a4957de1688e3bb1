use pg_search_storage::parallel::{
    list_segment_ids, maybe_claim_segment, maybe_init_parallel_scan, ParallelScanState, ScanPhase,
    COORDINATOR_WORKER,
};
use pg_search_storage::segment::SegmentId;
use std::collections::HashSet;

fn ids(n: u64) -> Vec<SegmentId> {
    (1..=n).map(|k| SegmentId { hi: k, lo: k * 7 }).collect()
}

fn active(snapshot: &[SegmentId]) -> ParallelScanState {
    let mut st = ParallelScanState::new();
    assert_eq!(st.phase(), ScanPhase::Uninitialized);
    st.init_mutex();
    assert_eq!(st.phase(), ScanPhase::MutexReady);
    assert_eq!(maybe_init_parallel_scan(Some(&mut st), COORDINATOR_WORKER, snapshot), Some(-1));
    assert_eq!(st.phase(), ScanPhase::Active);
    st
}

#[test]
fn three_segments_two_workers() {
    let snapshot = ids(3);
    let mut st = active(&snapshot);
    let mut worker1 = Vec::new();
    let mut worker2 = Vec::new();
    worker1.push(maybe_claim_segment(Some(&mut st)).unwrap());
    worker2.push(maybe_claim_segment(Some(&mut st)).unwrap());
    worker1.push(maybe_claim_segment(Some(&mut st)).unwrap());
    assert_eq!(maybe_claim_segment(Some(&mut st)), None);
    assert_eq!(maybe_claim_segment(Some(&mut st)), None);
    let all: HashSet<SegmentId> = worker1.iter().chain(worker2.iter()).cloned().collect();
    assert_eq!(all.len(), 3);
    assert_eq!(all, snapshot.iter().cloned().collect());
    assert_eq!(st.remaining_segments(), 0);
}

#[test]
fn claims_partition_for_many_workers() {
    for workers in 1..6usize {
        let snapshot = ids(10);
        let mut st = active(&snapshot);
        let mut claimed: Vec<Vec<SegmentId>> = vec![Vec::new(); workers];
        let mut turn = 0usize;
        let mut done = vec![false; workers];
        while done.iter().any(|d| !d) {
            let w = (turn * 7 + turn / 3) % workers;
            turn += 1;
            if done[w] {
                continue;
            }
            match maybe_claim_segment(Some(&mut st)) {
                Some(id) => claimed[w].push(id),
                None => done[w] = true,
            }
        }
        let flat: Vec<SegmentId> = claimed.concat();
        assert_eq!(flat.len(), 10);
        let set: HashSet<SegmentId> = flat.iter().cloned().collect();
        assert_eq!(set, snapshot.iter().cloned().collect());
    }
}

#[test]
fn claims_come_from_the_end_of_the_snapshot() {
    let snapshot = ids(2);
    let mut st = active(&snapshot);
    assert_eq!(st.claim(), Some(snapshot[1]));
    assert_eq!(st.remaining_segments(), 1);
    assert_eq!(st.claim(), Some(snapshot[0]));
    assert_eq!(st.claim(), None);
}

#[test]
fn workers_do_not_recapture() {
    let snapshot = ids(2);
    let mut st = active(&snapshot);
    assert_eq!(maybe_init_parallel_scan(Some(&mut st), 0, &ids(5)), Some(0));
    assert_eq!(st.segments(), snapshot);
    assert_eq!(list_segment_ids(Some(&st)), Some(snapshot.clone()));
}

#[test]
fn not_parallel_reports_nothing() {
    assert_eq!(maybe_init_parallel_scan(None, 3, &ids(2)), None);
    assert_eq!(maybe_claim_segment(None), None);
    assert_eq!(list_segment_ids(None), None);
}

#[test]
fn empty_snapshot_is_exhausted_at_once() {
    let mut st = active(&[]);
    assert_eq!(st.claim(), None);
}

#[test]
fn claim_before_capture_gives_nothing() {
    let mut st = ParallelScanState::new();
    st.init_mutex();
    assert_eq!(st.claim(), None);
}

#[test]
fn decrement_and_index() {
    let snapshot = ids(4);
    let mut st = active(&snapshot);
    assert_eq!(st.decrement_remaining_segments(), 3);
    assert_eq!(st.segment_id(3), snapshot[3]);
}
