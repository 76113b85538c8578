//! Feedback from 8-bit edge counters read out of the target's memory.

use vstd::prelude::*;

use crate::coverage::{CaptureStart, CoverageCapture, CoverageId, CoverageSet, ExecutionFeedback};
use crate::counters::{bucket_of, hit_count_bucket};

verus! {

/// What one run left behind for the capture that started it.
#[derive(Debug, Default)]
pub struct Slot {
    pub counters: Option<Vec<u8>>,
}

/// Feature of edge `index` hit so often that its counter falls in `bucket`.
pub open spec fn counter_feature(index: int, counter: u8) -> CoverageId {
    CoverageId(((index as u64) << 8u64) | bucket_of(counter as int) as u64)
}

/// Features of the first `n` counters: one for each counter that is not zero.
pub open spec fn counter_features(counters: Seq<u8>, n: int) -> Seq<CoverageId>
    decreases n,
{
    if n <= 0 {
        Seq::empty()
    } else if counters[n - 1] != 0 {
        counter_features(counters, n - 1).push(counter_feature(n - 1, counters[n - 1]))
    } else {
        counter_features(counters, n - 1)
    }
}

/// Weight of the first `n` counters: one for each edge hit, and its bucket on top.
pub open spec fn counter_weight(counters: Seq<u8>, n: int) -> int
    decreases n,
{
    if n <= 0 {
        0
    } else if counters[n - 1] != 0 {
        counter_weight(counters, n - 1) + 1 + bucket_of(counters[n - 1] as int)
    } else {
        counter_weight(counters, n - 1)
    }
}

/// The feedback that the counters of a run give.
pub open spec fn is_counter_feedback(counters: Seq<u8>, feedback: ExecutionFeedback) -> bool {
    let weight = counter_weight(counters, counters.len() as int);
    &&& feedback.features@ == counter_features(counters, counters.len() as int).to_set()
    &&& feedback.hit_count_weight == if weight <= u64::MAX {
        weight
    } else {
        u64::MAX as int
    }
    &&& feedback.dictionary@ == Seq::<Vec<u8>>::empty()
}

/// The feedback that a slot gives: none, if no counters arrived.
pub open spec fn is_slot_feedback(slot: Slot, feedback: ExecutionFeedback) -> bool {
    match slot.counters {
        Some(counters) => is_counter_feedback(counters@, feedback),
        None => {
            &&& feedback.features@ == Set::<CoverageId>::empty()
            &&& feedback.hit_count_weight == 0
            &&& feedback.dictionary@ == Seq::<Vec<u8>>::empty()
        },
    }
}

/// Turn one run's counters into feedback.
pub fn feedback_from_counters(counters: &Vec<u8>) -> (feedback: ExecutionFeedback)
    ensures
        is_counter_feedback(counters@, feedback),
{
    let mut ids: Vec<CoverageId> = Vec::new();
    let mut weight: u64 = 0;
    let mut i: usize = 0;
    while i < counters.len()
        invariant
            i <= counters.len(),
            ids@ == counter_features(counters@, i as int),
            counter_weight(counters@, i as int) >= 0,
            weight == if counter_weight(counters@, i as int) <= u64::MAX {
                counter_weight(counters@, i as int)
            } else {
                u64::MAX as int
            },
        decreases counters.len() - i,
    {
        let counter = counters[i];
        if counter != 0 {
            let bucket = hit_count_bucket(counter);
            ids.push(CoverageId::new(((i as u64) << 8u64) | bucket as u64));
            weight = weight.saturating_add(1 + bucket as u64);
        }
        i += 1;
    }
    ExecutionFeedback::from_features(CoverageSet::from_unsorted(ids)).with_hit_count_weight(weight)
}

impl Slot {
    /// Start of a capture: forget the counters of an earlier run.
    pub fn begin(&mut self)
        ensures
            final(self).counters is None,
    {
        self.counters = None;
    }

    /// End of a capture: take the counters and turn them into feedback. A run that announced no
    /// counters gives empty feedback.
    pub fn take_feedback(&mut self) -> (feedback: ExecutionFeedback)
        ensures
            final(self).counters is None,
            is_slot_feedback(*old(self), feedback),
    {
        match self.counters.take() {
            Some(counters) => feedback_from_counters(&counters),
            None => ExecutionFeedback::default(),
        }
    }
}

/// Coverage backend whose counters arrive from the program in the sandbox.
#[derive(Debug)]
pub struct SandboxCoverage {
    pub slot: Slot,
}

impl SandboxCoverage {
    /// A backend to which nothing has arrived.
    pub fn new() -> (capture: SandboxCoverage)
        ensures
            capture.slot.counters is None,
    {
        SandboxCoverage { slot: Slot { counters: None } }
    }

    /// What has arrived.
    pub fn slot(&self) -> (slot: &Slot)
        ensures
            *slot == self.slot,
    {
        &self.slot
    }

    /// The counters of a run arrive.
    pub fn store(&mut self, counters: Option<Vec<u8>>)
        ensures
            final(self).slot.counters == counters,
    {
        self.slot.counters = counters;
    }
}

impl CoverageCapture for SandboxCoverage {
    type Session = ();

    open spec fn may_start(
        &self,
        after: &SandboxCoverage,
        started: Result<CaptureStart<()>, String>,
    ) -> bool {
        after.slot.counters is None && started == Ok::<CaptureStart<()>, String>(CaptureStart::Started(()))
    }

    open spec fn may_finish(
        &self,
        session: (),
        after: &SandboxCoverage,
        feedback: Result<ExecutionFeedback, String>,
    ) -> bool {
        &&& after.slot.counters is None
        &&& feedback matches Ok(feedback) && is_slot_feedback(self.slot, feedback)
    }

    open spec fn may_discard(
        &self,
        session: (),
        after: &SandboxCoverage,
        discarded: Result<(), String>,
    ) -> bool {
        after == self && discarded is Ok
    }

    fn start_capture(&mut self) -> (started: Result<CaptureStart<()>, String>) {
        self.slot.begin();
        Ok(CaptureStart::Started(()))
    }

    fn finish_capture(&mut self, _session: ()) -> (feedback: Result<ExecutionFeedback, String>) {
        Ok(self.slot.take_feedback())
    }

    fn discard_capture(&mut self, _session: ()) -> (discarded: Result<(), String>) {
        Ok(())
    }
}

/// A feature names its edge and the bucket of its counter.
pub proof fn features_name_their_edge(index: int, counter: u8)
    requires
        0 <= index < 0x0100_0000_0000_0000,
    ensures
        counter_feature(index, counter).0 / 256 == index,
        counter_feature(index, counter).0 % 256 == bucket_of(counter as int),
{
    let edge = index as u64;
    let bucket = bucket_of(counter as int) as u64;
    assert(((edge << 8u64) | bucket) / 256 == edge && ((edge << 8u64) | bucket) % 256 == bucket)
        by (bit_vector)
        requires
            edge < 0x0100_0000_0000_0000,
            bucket < 256,
    ;
}

/// Every counter that is not zero is a feature, and every feature comes from such a counter.
pub proof fn features_come_from_counters(counters: Seq<u8>, n: int, id: CoverageId)
    requires
        0 <= n <= counters.len(),
    ensures
        counter_features(counters, n).contains(id) <==> exists|i: int|
            0 <= i < n && #[trigger] counters[i] != 0 && id == counter_feature(i, counters[i]),
    decreases n,
{
    if n > 0 {
        features_come_from_counters(counters, n - 1, id);
        let before = counter_features(counters, n - 1);
        let list = counter_features(counters, n);
        if list.contains(id) {
            let k = choose|k: int| 0 <= k < list.len() && list[k] == id;
            if k < before.len() {
                assert(before[k] == id);
                assert(before.contains(id));
            } else {
                assert(counters[n - 1] != 0);
            }
        }
        if exists|i: int|
            0 <= i < n && #[trigger] counters[i] != 0 && id == counter_feature(i, counters[i]) {
            let i = choose|i: int|
                0 <= i < n && #[trigger] counters[i] != 0 && id == counter_feature(i, counters[i]);
            if i < n - 1 {
                assert(before.contains(id));
                let k = choose|k: int| 0 <= k < before.len() && before[k] == id;
                assert(list[k] == id);
            } else {
                assert(list[list.len() - 1] == id);
            }
        }
    }
}

} // verus!
