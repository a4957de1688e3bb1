//! The claim protocol that lets cooperating workers of one parallel scan
//! split a fixed set of segments between them. The state lives in memory
//! shared by the workers and is only touched under its mutex: every method
//! that changes it takes `&mut self`, which the holder of the mutex has.
use vstd::prelude::*;
use crate::segment::SegmentId;

verus! {

/// The worker number of the process that orchestrates the scan, as opposed
/// to one of its parallel participants.
pub const COORDINATOR_WORKER: i32 = -1;

/// Where the shared state stands in its life.
#[derive(Clone, Copy, Debug, PartialEq, Eq, Structural)]
pub enum ScanPhase {
    /// Nothing is set up yet.
    Uninitialized,
    /// The mutex exists; the segment list is not captured yet.
    MutexReady,
    /// The segment list is captured and claims proceed.
    Active,
}

/// What the shared state holds.
pub ghost struct ScanView {
    pub phase: ScanPhase,
    pub segments: Seq<SegmentId>,
    pub remaining: nat,
}

/// The shared state of one parallel scan.
pub struct ParallelScanState {
    phase: ScanPhase,
    segments: Vec<SegmentId>,
    remaining: usize,
}

/// One claim: the id at position `remaining - 1`, which leaves that many
/// unclaimed; nothing once no segment remains or before the list is captured.
pub open spec fn claim_step(v: ScanView) -> (ScanView, Option<SegmentId>) {
    if v.phase == ScanPhase::Active && v.remaining > 0 {
        (ScanView { remaining: (v.remaining - 1) as nat, ..v }, Some(v.segments[v.remaining - 1]))
    } else {
        (v, None)
    }
}

/// What `k` claims in a row return, in the order the mutex grants them.
pub open spec fn claims(v: ScanView, k: nat) -> Seq<Option<SegmentId>>
    decreases k,
{
    if k == 0 {
        Seq::empty()
    } else {
        seq![claim_step(v).1] + claims(claim_step(v).0, (k - 1) as nat)
    }
}

impl View for ParallelScanState {
    type V = ScanView;

    closed spec fn view(&self) -> ScanView {
        ScanView { phase: self.phase, segments: self.segments@, remaining: self.remaining as nat }
    }
}

impl ParallelScanState {
    /// The state's invariant: the remaining count never exceeds the list,
    /// and the list is empty until it is captured.
    pub open spec fn wf(&self) -> bool {
        &&& self@.remaining <= self@.segments.len()
        &&& self@.phase != ScanPhase::Active ==> self@.segments.len() == 0
    }

    /// A fresh, uninitialized state.
    pub fn new() -> (r: ParallelScanState)
        ensures
            r.wf(),
            r@.phase == ScanPhase::Uninitialized,
            r@.segments.len() == 0,
            r@.remaining == 0,
    {
        ParallelScanState { phase: ScanPhase::Uninitialized, segments: Vec::new(), remaining: 0 }
    }

    pub fn phase(&self) -> (r: ScanPhase)
        ensures
            r == self@.phase,
    {
        self.phase
    }

    /// Sets up the mutex; done once, by the process that owns the shared
    /// region before any worker starts.
    pub fn init_mutex(&mut self)
        requires
            old(self).wf(),
            old(self)@.phase == ScanPhase::Uninitialized,
        ensures
            final(self).wf(),
            final(self)@ == (ScanView { phase: ScanPhase::MutexReady, ..old(self)@ }),
    {
        self.phase = ScanPhase::MutexReady;
    }

    /// Captures the list of segments that the whole scan will share out;
    /// done once, under the mutex, by the coordinator.
    pub fn init_without_mutex(&mut self, segment_ids: &[SegmentId])
        requires
            old(self).wf(),
            old(self)@.phase == ScanPhase::MutexReady,
        ensures
            final(self).wf(),
            final(self)@.phase == ScanPhase::Active,
            final(self)@.segments == segment_ids@,
            final(self)@.remaining == segment_ids@.len(),
    {
        let mut v: Vec<SegmentId> = Vec::new();
        let mut i: usize = 0;
        while i < segment_ids.len()
            invariant
                i <= segment_ids@.len(),
                v@ == segment_ids@.take(i as int),
            decreases segment_ids@.len() - i,
        {
            v.push(segment_ids[i]);
            i = i + 1;
            assert(v@ =~= segment_ids@.take(i as int));
        }
        assert(v@ =~= segment_ids@);
        self.remaining = v.len();
        self.segments = v;
        self.phase = ScanPhase::Active;
    }

    /// How many segments are still unclaimed.
    pub fn remaining_segments(&self) -> (r: usize)
        ensures
            r == self@.remaining,
    {
        self.remaining
    }

    /// Takes one from the remaining count and returns the new count.
    pub fn decrement_remaining_segments(&mut self) -> (r: usize)
        requires
            old(self).wf(),
            old(self)@.remaining > 0,
        ensures
            final(self).wf(),
            final(self)@ == (ScanView { remaining: (old(self)@.remaining - 1) as nat, ..old(self)@ }),
            r == final(self)@.remaining,
    {
        self.remaining = self.remaining - 1;
        self.remaining
    }

    /// The captured id at position `i`.
    pub fn segment_id(&self, i: usize) -> (r: SegmentId)
        requires
            i < self@.segments.len(),
        ensures
            r == self@.segments[i as int],
    {
        self.segments[i]
    }

    /// The whole captured list.
    pub fn segments(&self) -> (r: Vec<SegmentId>)
        ensures
            r@ == self@.segments,
    {
        self.segments.clone()
    }

    /// Claims one segment for the caller, who holds the mutex; `None` once
    /// every segment has been claimed.
    pub fn claim(&mut self) -> (r: Option<SegmentId>)
        requires
            old(self).wf(),
        ensures
            final(self).wf(),
            (final(self)@, r) == claim_step(old(self)@),
    {
        if self.phase != ScanPhase::Active || self.remaining_segments() == 0 {
            None
        } else {
            let remaining = self.decrement_remaining_segments();
            Some(self.segment_id(remaining))
        }
    }
}

/// Called by every participant when a scan starts: the coordinator captures
/// `segment_ids`; each caller gets its worker number back. `None` when the
/// scan is not parallel.
pub fn maybe_init_parallel_scan(
    state: Option<&mut ParallelScanState>,
    worker_number: i32,
    segment_ids: &[SegmentId],
) -> (r: Option<i32>)
    requires
        state matches Some(s) ==> s.wf() && (worker_number == COORDINATOR_WORKER ==> s@.phase
            == ScanPhase::MutexReady),
    ensures
        state is None ==> r is None,
        state is Some ==> r == Some(worker_number),
        state matches Some(s) ==> final(s).wf() && if worker_number == COORDINATOR_WORKER {
            final(s)@ == (ScanView { phase: ScanPhase::Active, segments: segment_ids@, remaining: segment_ids@.len() })
        } else {
            final(s)@ == s@
        },
{
    match state {
        None => None,
        Some(s) => {
            if worker_number == COORDINATOR_WORKER {
                s.init_without_mutex(segment_ids);
            }
            Some(worker_number)
        },
    }
}

/// One claim by a worker of a parallel scan; `None` when the scan is not
/// parallel or every segment has been claimed.
pub fn maybe_claim_segment(state: Option<&mut ParallelScanState>) -> (r: Option<SegmentId>)
    requires
        state matches Some(s) ==> s.wf(),
    ensures
        state is None ==> r is None,
        state matches Some(s) ==> final(s).wf() && (final(s)@, r) == claim_step(s@),
{
    match state {
        None => None,
        Some(s) => s.claim(),
    }
}

/// The whole captured list, for a worker that needs to know the set without
/// claiming; `None` when the scan is not parallel.
pub fn list_segment_ids(state: Option<&ParallelScanState>) -> (r: Option<Vec<SegmentId>>)
    ensures
        state is None ==> r is None,
        state matches Some(s) ==> r matches Some(v) && v@ == s@.segments,
{
    match state {
        None => None,
        Some(s) => Some(s.segments()),
    }
}

/// The `i`-th of a run of claims is the id at position `remaining - 1 - i`
/// while any remain, and nothing after.
proof fn lemma_claims_at(v: ScanView, k: nat, i: int)
    requires
        v.phase == ScanPhase::Active,
        v.remaining <= v.segments.len(),
        0 <= i < k,
    ensures
        claims(v, k).len() == k,
        claims(v, k)[i] == if i < v.remaining {
            Some(v.segments[v.remaining - 1 - i])
        } else {
            None::<SegmentId>
        },
    decreases k,
{
    lemma_claims_len(v, k);
    let (w, first) = claim_step(v);
    if i > 0 {
        lemma_claims_at(w, (k - 1) as nat, i - 1);
    }
}

proof fn lemma_claims_len(v: ScanView, k: nat)
    ensures
        claims(v, k).len() == k,
    decreases k,
{
    if k > 0 {
        lemma_claims_len(claim_step(v).0, (k - 1) as nat);
    }
}

/// However the workers interleave, the claims that the mutex serialises
/// hand out every captured id exactly once: no two claims return the same
/// id, every id of the snapshot is returned, none outside it is, and once
/// the snapshot is exhausted every further claim returns nothing.
pub proof fn lemma_claims_partition(v: ScanView, k: nat)
    requires
        v.phase == ScanPhase::Active,
        v.remaining == v.segments.len(),
        v.segments.no_duplicates(),
        k >= v.remaining,
    ensures
        claims(v, k).len() == k,
        forall|i: int, j: int|
            0 <= i < j < k && (#[trigger] claims(v, k)[i]) is Some ==> claims(v, k)[i] != #[trigger] claims(v, k)[j],
        forall|id: SegmentId|
            v.segments.contains(id) <==> #[trigger] claims(v, k).contains(Some(id)),
        forall|i: int| v.remaining <= i < k ==> #[trigger] claims(v, k)[i] is None,
{
    let c = claims(v, k);
    let n = v.remaining as int;
    lemma_claims_len(v, k);
    assert forall|i: int| 0 <= i < k implies #[trigger] c[i] == if i < n {
        Some(v.segments[n - 1 - i])
    } else {
        None::<SegmentId>
    } by {
        lemma_claims_at(v, k, i);
    }
    assert forall|i: int, j: int|
        0 <= i < j < k && (#[trigger] c[i]) is Some implies c[i] != #[trigger] c[j] by {
        if c[j] is Some {
            assert(v.segments[n - 1 - i] != v.segments[n - 1 - j]);
        }
    }
    assert forall|id: SegmentId| v.segments.contains(id) <==> #[trigger] c.contains(Some(id)) by {
        if v.segments.contains(id) {
            let p = choose|p: int| 0 <= p < v.segments.len() && v.segments[p] == id;
            assert(c[n - 1 - p] == Some(id));
        }
        if c.contains(Some(id)) {
            let i = choose|i: int| 0 <= i < c.len() && c[i] == Some(id);
            assert(v.segments[n - 1 - i] == id);
        }
    }
}

/// A claim never returns an id outside the captured snapshot, and never
/// changes the snapshot.
pub proof fn lemma_claim_within_snapshot(v: ScanView)
    requires
        v.remaining <= v.segments.len(),
    ensures
        claim_step(v).0.segments == v.segments,
        claim_step(v).0.phase == v.phase,
        claim_step(v).1 matches Some(id) ==> v.segments.contains(id),
{
    if let Some(id) = claim_step(v).1 {
        assert(v.segments[v.remaining - 1] == id);
    }
}

} // verus!
