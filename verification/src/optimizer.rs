//! Searches over a coverage backend.

use crate::candidate::Candidate;
use crate::coverage::{CaptureStart, CoverageCapture, ExecutionFeedback};
use crate::execution::{feedback_model, DetachedExecution, ExecutionModel};
use crate::no_coverage::NoCoverage;
use crate::rng::{active_of, detached_active, rng_of, ActiveModel, CaseRng, RngModel};
use crate::sancov::{SancovCoverage, SancovSession};
use crate::score::{CaseCost, CaseCoverage, CautiousOptions, SearchStats};
use crate::search::merge::{merged, one_over, reported};
use crate::search::plan::{comes_next, model_of};
use crate::search::state::{
    case_models, fresh_search, Goal, MutationSource, SearchModel, SearchState, SCHEDULER_SEED,
};
use crate::trace::{Trace, TraceModel};
use crate::virtual_time::coverage::SandboxCoverage;
use vstd::prelude::*;

verus! {

/// A search and the backend that captures its coverage.
pub struct Engine<Capture> {
    pub capture: Capture,
    pub state: SearchState,
}

/// A case that is to be started.
pub enum CaseStart<Session> {
    /// The case runs on this generator.
    Running(CaseRng<Session>),
    /// The backend is busy: the candidate may be started later.
    Busy(Candidate),
    /// The backend failed: the case does not run.
    Failed(String),
}

/// A search without the cases that were still running.
pub open spec fn at_rest(state: SearchModel) -> SearchModel {
    SearchModel { active_cases: 0, ..state }
}

/// A search that is handed more cases.
pub open spec fn with_more_cases(state: SearchModel, cases: Seq<TraceModel>) -> SearchModel {
    SearchModel { pending: state.pending + cases, ..state }
}

/// A search with another first seed.
pub open spec fn reseeded(state: SearchModel, seed: u64) -> SearchModel {
    SearchModel { base_seed: seed, next: 0, ..state }
}

/// A search in which one case less is running.
pub open spec fn cancelled(state: SearchModel) -> SearchModel {
    SearchModel {
        active_cases: if state.active_cases > 0 {
            (state.active_cases - 1) as u64
        } else {
            0
        },
        ..state
    }
}

/// What becomes of a candidate if the backend answers so: it runs, or waits, or the search is told
/// that it does not run.
pub open spec fn is_start<Session>(
    before: SearchModel,
    after: SearchModel,
    candidate: Candidate,
    started: Result<CaptureStart<Session>, String>,
    start: CaseStart<Session>,
) -> bool {
    match started {
        Ok(CaptureStart::Started(session)) => {
            &&& start is Running
            &&& start->Running_0@ == rng_of(candidate.case@, candidate.origin@)
            &&& start->Running_0.session_of() == Some(session)
            &&& after == before
        },
        Ok(CaptureStart::Busy) => start == CaseStart::<Session>::Busy(candidate) && after
            == before,
        Err(error) => start == CaseStart::<Session>::Failed(error) && after == cancelled(before),
    }
}

/// The backend was asked to start a case, and the case became what the answer makes of it.
pub open spec fn has_started<Capture: CoverageCapture>(
    before: Engine<Capture>,
    after: Engine<Capture>,
    candidate: Candidate,
    start: CaseStart<Capture::Session>,
) -> bool {
    exists|started: Result<CaptureStart<Capture::Session>, String>| #[trigger]
        before.capture.may_start(&after.capture, started) && is_start(
            before.state@,
            after.state@,
            candidate,
            started,
            start,
        )
}

/// What may come of ending a capture, and what the backend may be like after it. The session of a
/// case that is recorded is finished, and the feedback is the backend's; that of a case that is not
/// recorded is discarded, and there is no feedback. An error is the backend's own. Without a session
/// the backend stays as it is.
pub open spec fn may_capture<Capture: CoverageCapture>(
    before: Capture,
    after: Capture,
    session: Option<Capture::Session>,
    record: bool,
    feedback: Result<Option<ExecutionFeedback>, String>,
) -> bool {
    match session {
        None => after == before && if record {
            feedback is Err && feedback->Err_0@ == "coverage capture never started"@
        } else {
            feedback == Ok::<Option<ExecutionFeedback>, String>(None)
        },
        Some(session) => match feedback {
            Ok(Some(found)) => record && before.may_finish(session, &after, Ok(found)),
            Ok(None) => !record && before.may_discard(session, &after, Ok(())),
            Err(error) => if record {
                before.may_finish(session, &after, Err(error))
            } else {
                before.may_discard(session, &after, Err(error))
            },
        },
    }
}

/// What the backend may be like after the session of a case is let go, whether or not the backend
/// reports an error.
pub open spec fn may_release<Capture: CoverageCapture>(
    before: Capture,
    after: Capture,
    session: Option<Capture::Session>,
) -> bool {
    match session {
        None => after == before,
        Some(session) => exists|discarded: Result<(), String>| #[trigger]
            before.may_discard(session, &after, discarded),
    }
}

/// What is learned from a case that is over, if its capture ended so. Where the capture failed,
/// nothing but that the case is over; where the harness did not accept the case, nothing but that;
/// otherwise what the feedback of the backend says.
pub open spec fn is_learned(
    before: SearchModel,
    after: SearchModel,
    active: ActiveModel,
    cost: CaseCost,
    energy: u64,
    feedback: Result<Option<ExecutionFeedback>, String>,
    coverage: Result<CaseCoverage, String>,
) -> bool {
    match feedback {
        Ok(found) => {
            &&& after == merged(before, active, feedback_model(found), cost, energy)
            &&& coverage == Ok::<CaseCoverage, String>(
                reported(active, feedback_model(found), cost),
            )
        },
        Err(error) => after == one_over(before) && coverage == Err::<CaseCoverage, String>(error),
    }
}

/// A case is over, its capture ended, and the search learned from it.
pub open spec fn learned<Capture: CoverageCapture>(
    before: Engine<Capture>,
    after: Engine<Capture>,
    rng: CaseRng<Capture::Session>,
    record: bool,
    cost: CaseCost,
    energy: u64,
    coverage: Result<CaseCoverage, String>,
) -> bool {
    exists|feedback: Result<Option<ExecutionFeedback>, String>| #[trigger]
        may_capture(
            before.capture,
            after.capture,
            rng.session_of(),
            record,
            feedback,
        ) && is_learned(
            before.state@,
            after.state@,
            active_of(rng@),
            cost,
            energy,
            feedback,
            coverage,
        )
}

/// A backend that never fails to discard a session.
pub open spec fn always_discards<Capture: CoverageCapture>(
    capture: Capture,
    session: Capture::Session,
) -> bool {
    forall|after: Capture, error: String| !#[trigger]
        capture.may_discard(session, &after, Err(error))
}

/// A case that the harness does not accept: its session is discarded, never finished, and the search
/// learns of the rejection and nothing else.
pub proof fn discarded_cases_are_rejections<Capture: CoverageCapture>(
    before: Engine<Capture>,
    after: Engine<Capture>,
    rng: CaseRng<Capture::Session>,
    coverage: Result<CaseCoverage, String>,
)
    requires
        learned(before, after, rng, false, CaseCost(0), 0, coverage),
        rng.session_of() matches Some(session) ==> always_discards(before.capture, session),
    ensures
        coverage == Ok::<CaseCoverage, String>(reported(active_of(rng@), None, CaseCost(0))),
        after.state@ == merged(before.state@, active_of(rng@), None, CaseCost(0), 0),
        match rng.session_of() {
            Some(session) => before.capture.may_discard(session, &after.capture, Ok(())),
            None => after.capture == before.capture,
        },
{
    let feedback = choose|feedback: Result<Option<ExecutionFeedback>, String>| #[trigger]
        may_capture(
            before.capture,
            after.capture,
            rng.session_of(),
            false,
            feedback,
        ) && is_learned(
            before.state@,
            after.state@,
            active_of(rng@),
            CaseCost(0),
            0,
            feedback,
            coverage,
        );
    assert(feedback == Ok::<Option<ExecutionFeedback>, String>(None));
}

/// The backends of this library never fail to discard a session.
pub proof fn own_backends_discard(
    session: SancovSession,
    sancov: SancovCoverage,
    sandbox: SandboxCoverage,
)
    ensures
        always_discards(sancov, session),
        always_discards(sandbox, ()),
        always_discards(NoCoverage, ()),
{
}

/// What is handed back of a case that ran in a process of its own, if its capture ended so.
pub open spec fn is_detached(
    rng: RngModel,
    cost: CaseCost,
    feedback: Result<Option<ExecutionFeedback>, String>,
    finished: Result<(CaseCoverage, DetachedExecution), String>,
) -> bool {
    match feedback {
        Ok(found) => finished matches Ok((coverage, execution)) && {
            &&& detached_active(rng, execution@) == (ActiveModel {
                scalars: Seq::empty(),
                ..active_of(rng)
            })
            &&& execution@.case_cost == cost
            &&& execution@.feedback == feedback_model(found)
            &&& coverage == detached_coverage(execution@)
        },
        Err(error) => finished == Err::<(CaseCoverage, DetachedExecution), String>(error),
    }
}

/// The capture of a case in a process of its own ended.
pub open spec fn detached<Capture: CoverageCapture>(
    before: Engine<Capture>,
    after: Engine<Capture>,
    rng: CaseRng<Capture::Session>,
    record: bool,
    cost: CaseCost,
    finished: Result<(CaseCoverage, DetachedExecution), String>,
) -> bool {
    exists|feedback: Result<Option<ExecutionFeedback>, String>| #[trigger]
        may_capture(
            before.capture,
            after.capture,
            rng.session_of(),
            record,
            feedback,
        ) && is_detached(
            rng@,
            cost,
            feedback,
            finished,
        )
}

/// Ends the capture of a case.
fn finish_capture<Capture: CoverageCapture>(
    capture: &mut Capture,
    session: Option<Capture::Session>,
    record: bool,
) -> (feedback: Result<Option<ExecutionFeedback>, String>)
    ensures
        may_capture(*old(capture), *final(capture), session, record, feedback),
{
    if !record {
        if let Some(session) = session {
            match capture.discard_capture(session) {
                Ok(done) => {
                    assert(done == ());
                },
                Err(error) => {
                    return Err(error);
                },
            }
        }
        return Ok(None);
    }
    match session {
        None => Err("coverage capture never started".to_owned()),
        Some(session) => match capture.finish_capture(session) {
            Ok(feedback) => Ok(Some(feedback)),
            Err(error) => Err(error),
        },
    }
}

impl<Capture: CoverageCapture> Engine<Capture> {
    /// A search that has run nothing.
    pub fn new(capture: Capture, goal: Goal) -> (engine: Engine<Capture>)
        ensures
            engine.capture == capture,
            engine.state@ == fresh_search(goal),
            engine.state@.valid(),
    {
        Engine { capture, state: SearchState::new(goal) }
    }

    /// The search with another backend. Cases that are still running are forgotten.
    pub fn with_coverage<NewCapture: CoverageCapture>(self, capture: NewCapture) -> (engine: Engine<
        NewCapture,
    >)
        ensures
            engine.capture == capture,
            engine.state@ == at_rest(self.state@),
    {
        let mut state = self.state;
        state.active_cases = 0;
        assert(state@ =~= at_rest(self.state@));
        Engine { capture, state }
    }

    /// Hands in a case.
    pub fn with_case(self, case: Trace) -> (engine: Engine<Capture>)
        ensures
            engine.capture == self.capture,
            engine.state@ == with_more_cases(self.state@, seq![case@]),
    {
        let mut engine = self;
        engine.state.pending_cases.push_back(case);
        assert(engine.state@.pending =~= self.state@.pending + seq![case@]);
        assert(engine.state@ =~= with_more_cases(self.state@, seq![case@]));
        engine
    }

    /// Hands in cases.
    pub fn with_cases(self, cases: Vec<Trace>) -> (engine: Engine<Capture>)
        ensures
            engine.capture == self.capture,
            engine.state@ == with_more_cases(self.state@, case_models(cases@)),
    {
        let mut engine = self;
        let mut rest = cases;
        let mut more: std::collections::VecDeque<Trace> = std::collections::VecDeque::new();
        let total: usize = rest.len();
        let mut i: usize = 0;
        while i < total
            invariant
                i <= total,
                total == cases@.len(),
                rest@ == cases@.take(total - i),
                more@ == cases@.skip(total - i),
            decreases total - i,
        {
            match rest.pop() {
                Some(case) => {
                    more.push_front(case);
                },
                None => {},
            }
            i += 1;
            assert(rest@ =~= cases@.take(total - i));
            assert(more@ =~= cases@.skip(total - i));
        }
        assert(more@ =~= cases@);
        engine.state.pending_cases.append(&mut more);
        assert(engine.state@.pending =~= self.state@.pending + case_models(cases@));
        assert(engine.state@ =~= with_more_cases(self.state@, case_models(cases@)));
        engine
    }

    /// Stacks so many rewrites, but at least one.
    pub fn with_mutate_depth(self, depth: usize) -> (engine: Engine<Capture>)
        requires
            depth < usize::MAX,
        ensures
            engine.capture == self.capture,
            engine.state@ == (SearchModel {
                mutate_depth: if depth < 1 {
                    1
                } else {
                    depth
                },
                ..self.state@
            }),
    {
        let mut engine = self;
        engine.state.mutate_depth = if depth < 1 {
            1
        } else {
            depth
        };
        engine
    }

    /// Tries a fresh case every so often.
    pub fn with_seed_ratio(self, ratio: u64) -> (engine: Engine<Capture>)
        ensures
            engine.capture == self.capture,
            engine.state@ == (SearchModel {
                seed_ratio: if ratio < 1 {
                    1
                } else {
                    ratio
                },
                ..self.state@
            }),
    {
        let mut engine = self;
        engine.state.seed_ratio = if ratio < 1 {
            1
        } else {
            ratio
        };
        engine
    }

    /// Starts over with another first seed.
    pub fn with_seed(self, seed: u64) -> (engine: Engine<Capture>)
        ensures
            engine.capture == self.capture,
            engine.state@ == reseeded(self.state@, seed),
    {
        let mut engine = self;
        engine.state.base_seed = seed;
        engine.state.next = 0;
        engine.state.scheduler = crate::random::seeded(seed ^ SCHEDULER_SEED);
        engine
    }

    /// Sets how a minimization reduces.
    pub fn with_cautious_options(self, options: CautiousOptions) -> (engine: Engine<Capture>)
        ensures
            engine.capture == self.capture,
            engine.state@ == (SearchModel { options, ..self.state@ }),
    {
        let mut engine = self;
        engine.state.cautious_options = options;
        engine
    }

    /// Sets where the candidates come from.
    pub fn with_mutation_sources(self, sources: Vec<MutationSource>) -> (engine: Engine<Capture>)
        ensures
            engine.capture == self.capture,
            engine.state@ == (SearchModel { sources: sources@, ..self.state@ }),
    {
        let mut engine = self;
        engine.state.candidate_sources = sources;
        engine
    }

    /// Takes fresh cases, or none.
    pub fn with_fresh_roots(self, enabled: bool) -> (engine: Engine<Capture>)
        ensures
            engine.capture == self.capture,
            engine.state@ == (SearchModel { fresh_roots: enabled, ..self.state@ }),
    {
        let mut engine = self;
        engine.state.fresh_roots = enabled;
        engine
    }

    /// The counters of the search.
    pub fn stats(&self) -> (stats: SearchStats)
        ensures
            stats == self.state@.stats,
    {
        self.state.stats
    }

    /// The next case. `parent` names the case of the corpus to start from, where one is rewritten
    /// at random.
    pub fn next(&mut self, parent: Option<usize>) -> (candidate: Option<Candidate>)
        requires
            old(self).state@.valid(),
        ensures
            comes_next(old(self).state@, final(self).state@, parent, model_of(candidate)),
            final(self).state@.valid(),
            final(self).capture == old(self).capture,
    {
        self.state.next_candidate(parent)
    }

    /// Starts the capture of a case, if the backend is free.
    pub fn start(&mut self, candidate: Candidate) -> (start: CaseStart<Capture::Session>)
        ensures
            has_started(*old(self), *final(self), candidate, start),
    {
        let ghost given = candidate;
        let started = self.capture.start_capture();
        let ghost answer = started;
        let start = match started {
            Ok(CaptureStart::Started(session)) => CaseStart::Running(
                CaseRng::new(&candidate.case, candidate.origin, Some(session)),
            ),
            Ok(CaptureStart::Busy) => CaseStart::Busy(candidate),
            Err(error) => {
                self.state.cancel_case();
                CaseStart::Failed(error)
            },
        };
        proof {
            assert(old(self).capture.may_start(&self.capture, answer));
            assert(is_start(old(self).state@, self.state@, given, answer, start));
        }
        start
    }

    /// Ends a case and learns from it.
    fn finish(
        &mut self,
        rng: CaseRng<Capture::Session>,
        record: bool,
        cost: CaseCost,
        energy: u64,
    ) -> (coverage: Result<CaseCoverage, String>)
        requires
            old(self).state@.valid(),
        ensures
            learned(*old(self), *final(self), rng, record, cost, energy, coverage),
            final(self).state@.valid(),
    {
        let ghost before = self.state@;
        let (active, session) = rng.into_active();
        let ended = finish_capture(&mut self.capture, session, record);
        let ghost answer = ended;
        let coverage = match ended {
            Ok(feedback) => Ok(self.state.merge(&active, feedback, cost, energy)),
            Err(error) => {
                self.state.stats.executed = self.state.stats.executed.saturating_add(1);
                self.state.active_cases = self.state.active_cases.saturating_sub(1);
                assert(self.state@ =~= one_over(before));
                Err(error)
            },
        };
        assert(may_capture(
            old(self).capture,
            self.capture,
            rng.session_of(),
            record,
            answer,
        ));
        coverage
    }

    /// Ends a session without reading it.
    fn release(&mut self, session: Option<Capture::Session>)
        ensures
            final(self).state == old(self).state,
            may_release(old(self).capture, final(self).capture, session),
    {
        if let Some(session) = session {
            match self.capture.discard_capture(session) {
                Ok(_) => {},
                Err(_) => {},
            }
        }
    }
}

impl<Session> CaseRng<Session> {
    /// Ends the case and learns from it. `energy` is what the case is worth as a parent.
    pub fn coverage<Capture: CoverageCapture<Session = Session>>(
        self,
        engine: &mut Engine<Capture>,
        energy: u64,
    ) -> (coverage: Result<CaseCoverage, String>)
        requires
            old(engine).state@.valid(),
        ensures
            learned(*old(engine), *final(engine), self, true, CaseCost(0), energy, coverage),
            final(engine).state@.valid(),
    {
        engine.finish(self, true, CaseCost::zero(), energy)
    }

    /// Ends the case, with a cost in the domain of the harness, and learns from it.
    pub fn coverage_with_cost<Capture: CoverageCapture<Session = Session>>(
        self,
        engine: &mut Engine<Capture>,
        cost: CaseCost,
        energy: u64,
    ) -> (coverage: Result<CaseCoverage, String>)
        requires
            old(engine).state@.valid(),
        ensures
            learned(*old(engine), *final(engine), self, true, cost, energy, coverage),
            final(engine).state@.valid(),
    {
        engine.finish(self, true, cost, energy)
    }

    /// Ends a case that the harness does not accept.
    pub fn discard<Capture: CoverageCapture<Session = Session>>(
        self,
        engine: &mut Engine<Capture>,
    ) -> (coverage: Result<CaseCoverage, String>)
        requires
            old(engine).state@.valid(),
        ensures
            learned(*old(engine), *final(engine), self, false, CaseCost(0), 0, coverage),
            final(engine).state@.valid(),
    {
        engine.finish(self, false, CaseCost::zero(), 0)
    }

    /// Ends a case in a process of its own: the search does not change, and everything that it
    /// needs to learn from the case is handed back.
    pub fn finish_detached<Capture: CoverageCapture<Session = Session>>(
        self,
        engine: &mut Engine<Capture>,
        record: bool,
        cost: CaseCost,
    ) -> (finished: Result<(CaseCoverage, DetachedExecution), String>)
        ensures
            final(engine).state@ == old(engine).state@,
            detached(*old(engine), *final(engine), self, record, cost, finished),
    {
        let (active, session) = self.into_active();
        let ended = finish_capture(&mut engine.capture, session, record);
        assert(may_capture(
            old(engine).capture,
            engine.capture,
            self.session_of(),
            record,
            ended,
        ));
        match ended {
            Ok(feedback) => {
                let (features, weight): (usize, u64) = match &feedback {
                    Some(feedback) => (feedback.features.len(), feedback.hit_count_weight),
                    None => (0, 0),
                };
                let coverage = CaseCoverage::with_cost(
                    cost,
                    features,
                    weight,
                    active.bytes_consumed,
                );
                let execution = DetachedExecution {
                    trace: active.trace,
                    draws: active.draws,
                    semantics: active.semantics,
                    sequences: active.sequences,
                    bytes_consumed: active.bytes_consumed,
                    feedback,
                    case_cost: cost,
                };
                assert(detached_active(self@, execution@) =~= (ActiveModel {
                    scalars: Seq::empty(),
                    ..active_of(self@)
                }));
                Ok((coverage, execution))
            },
            Err(error) => Err(error),
        }
    }

    /// Learns from the execution of this case in another process.
    pub fn snapshot_record<Capture: CoverageCapture<Session = Session>>(
        self,
        engine: &mut Engine<Capture>,
        execution: DetachedExecution,
        energy: u64,
    ) -> (coverage: CaseCoverage)
        requires
            old(engine).state@.valid(),
        ensures
            final(engine).state@ == merged(
                old(engine).state@,
                detached_active(self@, execution@),
                execution@.feedback,
                execution@.case_cost,
                energy,
            ),
            final(engine).state@.valid(),
            coverage == reported(
                detached_active(self@, execution@),
                execution@.feedback,
                execution@.case_cost,
            ),
            may_release(old(engine).capture, final(engine).capture, self.session_of()),
    {
        let (active, feedback, cost, session) = self.into_detached(execution);
        engine.release(session);
        engine.state.merge(&active, feedback, cost, energy)
    }

    /// Ends a case of which nothing is known.
    pub fn snapshot_abandon<Capture: CoverageCapture<Session = Session>>(
        self,
        engine: &mut Engine<Capture>,
    )
        ensures
            final(engine).state@ == one_over(old(engine).state@),
            may_release(old(engine).capture, final(engine).capture, self.session_of()),
    {
        let (_active, session) = self.into_active();
        engine.release(session);
        let ghost before = engine.state@;
        engine.state.stats.executed = engine.state.stats.executed.saturating_add(1);
        engine.state.active_cases = engine.state.active_cases.saturating_sub(1);
        assert(engine.state@ =~= one_over(before));
    }
}

/// The coverage of an execution in a process of its own.
pub open spec fn detached_coverage(execution: ExecutionModel) -> CaseCoverage {
    CaseCoverage {
        case_cost: execution.case_cost,
        feature_count: match execution.feedback {
            Some(feedback) => feedback.features.len() as usize,
            None => 0,
        },
        hit_count_weight: match execution.feedback {
            Some(feedback) => feedback.hit_count_weight,
            None => 0,
        },
        bytes_consumed: execution.bytes_consumed,
    }
}

/// A search for coverage.
pub struct Curious<Capture> {
    pub engine: Engine<Capture>,
}

/// A minimization.
pub struct Cautious<Capture> {
    pub engine: Engine<Capture>,
}

/// A search for any goal.
pub struct Optimizer<Capture> {
    pub engine: Engine<Capture>,
}

/// A search that ends after so many cases.
pub struct Cases<Search> {
    pub inner: Search,
    pub remaining: usize,
}

/// A search for coverage, captured by sanitizer coverage.
pub fn curious() -> (search: Curious<SancovCoverage>)
    ensures
        search.engine.state@ == fresh_search(Goal::MaximizeCoverage),
        search.engine.state@.valid(),
        search.engine.capture == (SancovCoverage { comparisons: true, guards: false }),
{
    Curious { engine: Engine::new(SancovCoverage::new(), Goal::MaximizeCoverage) }
}

/// A minimization, captured by sanitizer coverage.
pub fn cautious() -> (search: Cautious<SancovCoverage>)
    ensures
        search.engine.state@ == fresh_search(Goal::MinimizeCoverage),
        search.engine.state@.valid(),
        search.engine.capture == (SancovCoverage { comparisons: true, guards: false }),
{
    Cautious { engine: Engine::new(SancovCoverage::new(), Goal::MinimizeCoverage) }
}

/// A search for a goal, captured by sanitizer coverage.
pub fn optimize(goal: Goal) -> (search: Optimizer<SancovCoverage>)
    ensures
        search.engine.state@ == fresh_search(goal),
        search.engine.state@.valid(),
        search.engine.capture == (SancovCoverage { comparisons: true, guards: false }),
{
    Optimizer { engine: Engine::new(SancovCoverage::new(), goal) }
}

impl<Capture: CoverageCapture> Curious<Capture> {
    /// The search with another backend.
    pub fn with_coverage<NewCapture: CoverageCapture>(self, capture: NewCapture) -> (search: Curious<
        NewCapture,
    >)
        ensures
            search.engine.capture == capture,
            search.engine.state@ == at_rest(self.engine.state@),
    {
        Curious { engine: self.engine.with_coverage(capture) }
    }

    /// Hands in a case: it comes before all cases that are made up.
    pub fn with_case(self, case: Trace) -> (search: Curious<Capture>)
        ensures
            search.engine.capture == self.engine.capture,
            search.engine.state@ == with_more_cases(self.engine.state@, seq![case@]),
    {
        Curious { engine: self.engine.with_case(case) }
    }

    /// Hands in cases: they come before all cases that are made up.
    pub fn with_cases(self, cases: Vec<Trace>) -> (search: Curious<Capture>)
        ensures
            search.engine.capture == self.engine.capture,
            search.engine.state@ == with_more_cases(self.engine.state@, case_models(cases@)),
    {
        Curious { engine: self.engine.with_cases(cases) }
    }

    /// Starts over with another first seed.
    pub fn with_seed(self, seed: u64) -> (search: Curious<Capture>)
        ensures
            search.engine.capture == self.engine.capture,
            search.engine.state@ == reseeded(self.engine.state@, seed),
    {
        Curious { engine: self.engine.with_seed(seed) }
    }

    /// The search, for so many cases.
    pub fn take(self, limit: usize) -> (cases: Cases<Curious<Capture>>)
        ensures
            cases.inner == self,
            cases.remaining == limit,
    {
        Cases { inner: self, remaining: limit }
    }

    /// The counters of the search.
    pub fn stats(&self) -> (stats: SearchStats)
        ensures
            stats == self.engine.state@.stats,
    {
        self.engine.stats()
    }

    /// The next case. `parent` names the case of the corpus to start from, where one is rewritten
    /// at random.
    pub fn next(&mut self, parent: Option<usize>) -> (candidate: Option<Candidate>)
        requires
            old(self).engine.state@.valid(),
        ensures
            comes_next(
                old(self).engine.state@,
                final(self).engine.state@,
                parent,
                model_of(candidate),
            ),
            final(self).engine.state@.valid(),
            final(self).engine.capture == old(self).engine.capture,
    {
        self.engine.next(parent)
    }
}

impl<Capture: CoverageCapture> Cases<Curious<Capture>> {
    /// The next case, unless there were enough.
    pub fn next(&mut self, parent: Option<usize>) -> (candidate: Option<Candidate>)
        requires
            old(self).inner.engine.state@.valid(),
        ensures
            final(self).inner.engine.state@.valid(),
            final(self).inner.engine.capture == old(self).inner.engine.capture,
            if old(self).remaining == 0 {
                candidate is None && *final(self) == *old(self)
            } else {
                &&& final(self).remaining == old(self).remaining - 1
                &&& comes_next(
                    old(self).inner.engine.state@,
                    final(self).inner.engine.state@,
                    parent,
                    model_of(candidate),
                )
            },
    {
        if self.remaining == 0 {
            return None;
        }
        self.remaining = self.remaining - 1;
        self.inner.next(parent)
    }
}

impl<Capture: CoverageCapture> Cautious<Capture> {
    /// The search with another backend.
    pub fn with_coverage<NewCapture: CoverageCapture>(self, capture: NewCapture) -> (search: Cautious<
        NewCapture,
    >)
        ensures
            search.engine.capture == capture,
            search.engine.state@ == at_rest(self.engine.state@),
    {
        Cautious { engine: self.engine.with_coverage(capture) }
    }

    /// Hands in a case: it comes before all cases that are made up.
    pub fn with_case(self, case: Trace) -> (search: Cautious<Capture>)
        ensures
            search.engine.capture == self.engine.capture,
            search.engine.state@ == with_more_cases(self.engine.state@, seq![case@]),
    {
        Cautious { engine: self.engine.with_case(case) }
    }

    /// Hands in cases: they come before all cases that are made up.
    pub fn with_cases(self, cases: Vec<Trace>) -> (search: Cautious<Capture>)
        ensures
            search.engine.capture == self.engine.capture,
            search.engine.state@ == with_more_cases(self.engine.state@, case_models(cases@)),
    {
        Cautious { engine: self.engine.with_cases(cases) }
    }

    /// Starts over with another first seed.
    pub fn with_seed(self, seed: u64) -> (search: Cautious<Capture>)
        ensures
            search.engine.capture == self.engine.capture,
            search.engine.state@ == reseeded(self.engine.state@, seed),
    {
        Cautious { engine: self.engine.with_seed(seed) }
    }

    /// The search, for so many cases.
    pub fn take(self, limit: usize) -> (cases: Cases<Cautious<Capture>>)
        ensures
            cases.inner == self,
            cases.remaining == limit,
    {
        Cases { inner: self, remaining: limit }
    }

    /// The counters of the search.
    pub fn stats(&self) -> (stats: SearchStats)
        ensures
            stats == self.engine.state@.stats,
    {
        self.engine.stats()
    }

    /// The next case. `parent` names the case of the corpus to start from, where one is rewritten
    /// at random.
    pub fn next(&mut self, parent: Option<usize>) -> (candidate: Option<Candidate>)
        requires
            old(self).engine.state@.valid(),
        ensures
            comes_next(
                old(self).engine.state@,
                final(self).engine.state@,
                parent,
                model_of(candidate),
            ),
            final(self).engine.state@.valid(),
            final(self).engine.capture == old(self).engine.capture,
    {
        self.engine.next(parent)
    }

    /// Sets how a minimization reduces.
    pub fn with_options(self, options: CautiousOptions) -> (search: Cautious<Capture>)
        ensures
            search.engine.capture == self.engine.capture,
            search.engine.state@ == (SearchModel { options, ..self.engine.state@ }),
    {
        Cautious { engine: self.engine.with_cautious_options(options) }
    }
}

impl<Capture: CoverageCapture> Cases<Cautious<Capture>> {
    /// The next case, unless there were enough.
    pub fn next(&mut self, parent: Option<usize>) -> (candidate: Option<Candidate>)
        requires
            old(self).inner.engine.state@.valid(),
        ensures
            final(self).inner.engine.state@.valid(),
            final(self).inner.engine.capture == old(self).inner.engine.capture,
            if old(self).remaining == 0 {
                candidate is None && *final(self) == *old(self)
            } else {
                &&& final(self).remaining == old(self).remaining - 1
                &&& comes_next(
                    old(self).inner.engine.state@,
                    final(self).inner.engine.state@,
                    parent,
                    model_of(candidate),
                )
            },
    {
        if self.remaining == 0 {
            return None;
        }
        self.remaining = self.remaining - 1;
        self.inner.next(parent)
    }
}

impl<Capture: CoverageCapture> Optimizer<Capture> {
    /// The search with another backend.
    pub fn with_coverage<NewCapture: CoverageCapture>(self, capture: NewCapture) -> (search: Optimizer<
        NewCapture,
    >)
        ensures
            search.engine.capture == capture,
            search.engine.state@ == at_rest(self.engine.state@),
    {
        Optimizer { engine: self.engine.with_coverage(capture) }
    }

    /// Hands in a case: it comes before all cases that are made up.
    pub fn with_case(self, case: Trace) -> (search: Optimizer<Capture>)
        ensures
            search.engine.capture == self.engine.capture,
            search.engine.state@ == with_more_cases(self.engine.state@, seq![case@]),
    {
        Optimizer { engine: self.engine.with_case(case) }
    }

    /// Hands in cases: they come before all cases that are made up.
    pub fn with_cases(self, cases: Vec<Trace>) -> (search: Optimizer<Capture>)
        ensures
            search.engine.capture == self.engine.capture,
            search.engine.state@ == with_more_cases(self.engine.state@, case_models(cases@)),
    {
        Optimizer { engine: self.engine.with_cases(cases) }
    }

    /// Starts over with another first seed.
    pub fn with_seed(self, seed: u64) -> (search: Optimizer<Capture>)
        ensures
            search.engine.capture == self.engine.capture,
            search.engine.state@ == reseeded(self.engine.state@, seed),
    {
        Optimizer { engine: self.engine.with_seed(seed) }
    }

    /// The search, for so many cases.
    pub fn take(self, limit: usize) -> (cases: Cases<Optimizer<Capture>>)
        ensures
            cases.inner == self,
            cases.remaining == limit,
    {
        Cases { inner: self, remaining: limit }
    }

    /// The counters of the search.
    pub fn stats(&self) -> (stats: SearchStats)
        ensures
            stats == self.engine.state@.stats,
    {
        self.engine.stats()
    }

    /// The next case. `parent` names the case of the corpus to start from, where one is rewritten
    /// at random.
    pub fn next(&mut self, parent: Option<usize>) -> (candidate: Option<Candidate>)
        requires
            old(self).engine.state@.valid(),
        ensures
            comes_next(
                old(self).engine.state@,
                final(self).engine.state@,
                parent,
                model_of(candidate),
            ),
            final(self).engine.state@.valid(),
            final(self).engine.capture == old(self).engine.capture,
    {
        self.engine.next(parent)
    }

    /// Sets how a minimization reduces.
    pub fn with_options(self, options: CautiousOptions) -> (search: Optimizer<Capture>)
        ensures
            search.engine.capture == self.engine.capture,
            search.engine.state@ == (SearchModel { options, ..self.engine.state@ }),
    {
        Optimizer { engine: self.engine.with_cautious_options(options) }
    }

    /// Sets where the candidates come from.
    pub fn with_mutations(self, sources: Vec<MutationSource>) -> (search: Optimizer<Capture>)
        ensures
            search.engine.capture == self.engine.capture,
            search.engine.state@ == (SearchModel { sources: sources@, ..self.engine.state@ }),
    {
        Optimizer { engine: self.engine.with_mutation_sources(sources) }
    }

    /// Takes fresh cases, or none.
    pub fn with_fresh_roots(self, enabled: bool) -> (search: Optimizer<Capture>)
        ensures
            search.engine.capture == self.engine.capture,
            search.engine.state@ == (SearchModel { fresh_roots: enabled, ..self.engine.state@ }),
    {
        Optimizer { engine: self.engine.with_fresh_roots(enabled) }
    }
}

impl<Capture: CoverageCapture> Cases<Optimizer<Capture>> {
    /// The next case, unless there were enough.
    pub fn next(&mut self, parent: Option<usize>) -> (candidate: Option<Candidate>)
        requires
            old(self).inner.engine.state@.valid(),
        ensures
            final(self).inner.engine.state@.valid(),
            final(self).inner.engine.capture == old(self).inner.engine.capture,
            if old(self).remaining == 0 {
                candidate is None && *final(self) == *old(self)
            } else {
                &&& final(self).remaining == old(self).remaining - 1
                &&& comes_next(
                    old(self).inner.engine.state@,
                    final(self).inner.engine.state@,
                    parent,
                    model_of(candidate),
                )
            },
    {
        if self.remaining == 0 {
            return None;
        }
        self.remaining = self.remaining - 1;
        self.inner.next(parent)
    }
}
/// Cases that are handed in wait behind those that were, in their order, and nothing else changes;
/// a new first seed starts the seeds over; and a case that does not run after all is taken off the
/// running ones only.
pub proof fn settings_change_one_thing(
    state: SearchModel,
    cases: Seq<TraceModel>,
    seed: u64,
    i: int,
)
    requires
        0 <= i < cases.len(),
    ensures
        with_more_cases(state, cases).pending.len() == state.pending.len() + cases.len(),
        with_more_cases(state, cases).pending[state.pending.len() + i] == cases[i],
        with_more_cases(state, cases).pending.take(state.pending.len() as int) == state.pending,
        with_more_cases(state, cases).corpus == state.corpus,
        crate::search::plan::fallback_seed(reseeded(state, seed)) == seed,
        reseeded(state, seed).corpus == state.corpus,
        state.active_cases > 0 ==> cancelled(state).active_cases == state.active_cases - 1,
        cancelled(state).stats == state.stats,
        cancelled(state).corpus == state.corpus,
        at_rest(state).active_cases == 0,
        at_rest(state).stats == state.stats,
        at_rest(state).corpus == state.corpus,
{
    assert(with_more_cases(state, cases).pending.take(state.pending.len() as int)
        =~= state.pending);
}

} // verus!
