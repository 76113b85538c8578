//! A coverage backend that sees nothing.

use crate::coverage::{CaptureStart, CoverageCapture, ExecutionFeedback, ParallelCoverageCapture};
use vstd::prelude::*;

verus! {

/// Coverage backend for harnesses that only want the generators.
#[derive(Debug, Clone, Copy, PartialEq, Eq, Structural)]
pub struct NoCoverage;

impl Default for NoCoverage {
    fn default() -> (capture: NoCoverage)
        ensures
            capture == NoCoverage,
    {
        NoCoverage
    }
}

impl CoverageCapture for NoCoverage {
    type Session = ();

    open spec fn may_start(
        &self,
        after: &NoCoverage,
        started: Result<CaptureStart<()>, String>,
    ) -> bool {
        started == Ok::<CaptureStart<()>, String>(CaptureStart::Started(()))
    }

    open spec fn may_finish(
        &self,
        session: (),
        after: &NoCoverage,
        feedback: Result<ExecutionFeedback, String>,
    ) -> bool {
        feedback matches Ok(feedback) && feedback@.features.is_empty()
            && feedback@.hit_count_weight == 0 && feedback@.dictionary.len() == 0
    }

    open spec fn may_discard(
        &self,
        session: (),
        after: &NoCoverage,
        discarded: Result<(), String>,
    ) -> bool {
        discarded is Ok
    }

    fn start_capture(&mut self) -> (started: Result<CaptureStart<()>, String>) {
        Ok(CaptureStart::Started(()))
    }

    fn finish_capture(&mut self, _session: ()) -> (feedback: Result<ExecutionFeedback, String>) {
        Ok(ExecutionFeedback::default())
    }

    fn discard_capture(&mut self, _session: ()) -> (discarded: Result<(), String>) {
        Ok(())
    }
}

impl ParallelCoverageCapture for NoCoverage {

}

} // verus!
