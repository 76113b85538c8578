use dowsing::coverage::{
    CaptureStart, CoverageCapture, CoverageId, CoverageSet, ExecutionFeedback,
};
use dowsing::no_coverage::NoCoverage;
use dowsing::optimizer::{cautious, curious, optimize, CaseStart, Cautious, Curious, Engine};
use dowsing::rng::{CaseRng, Edge};
use dowsing::candidate::CandidateOrigin;
use dowsing::mutation::MutationKind;
use dowsing::reduction::ReductionOperation;
use dowsing::score::{CaseCost, CautiousOptions};
use dowsing::search::plan::{Answer, Plan, Question};
use dowsing::search::state::{Goal, MutationSource};
use dowsing::trace::{ByteAffinity, Trace, TraceEvent, TraceNode};
use dowsing::weights::{penalize_rejected, reward_improved, reward_preserved};
use rand::{Rng, RngCore};
use std::cell::RefCell;
use std::rc::Rc;

const ENERGY: u64 = 1_000_000;

struct TestCapture {
    next_id: u64,
}

impl CoverageCapture for TestCapture {
    type Session = u64;

    fn start_capture(&mut self) -> Result<CaptureStart<u64>, String> {
        let id = self.next_id;
        self.next_id += 1;
        Ok(CaptureStart::Started(id))
    }

    fn finish_capture(&mut self, session: u64) -> Result<ExecutionFeedback, String> {
        Ok(ExecutionFeedback::from_features(features(&[session])))
    }

    fn discard_capture(&mut self, _session: u64) -> Result<(), String> {
        Ok(())
    }
}

fn features(ids: &[u64]) -> CoverageSet {
    let mut set = CoverageSet::new();
    for id in ids {
        set.insert(CoverageId::new(*id));
    }
    set
}

struct ScriptedCapture {
    next_token: usize,
    coverages: Vec<Vec<u64>>,
    hit_count_weights: Vec<u64>,
    dictionary: Vec<Vec<u8>>,
    finished: Rc<RefCell<Vec<usize>>>,
    discarded: Rc<RefCell<Vec<usize>>>,
}

impl ScriptedCapture {
    fn new(coverages: Vec<Vec<u64>>) -> Self {
        Self {
            next_token: 0,
            coverages,
            hit_count_weights: Vec::new(),
            dictionary: Vec::new(),
            finished: Rc::new(RefCell::new(Vec::new())),
            discarded: Rc::new(RefCell::new(Vec::new())),
        }
    }

    fn repeated(count: usize) -> Self {
        Self::new((0..count).map(|_| vec![1]).collect())
    }

    fn with_hit_count_weights(mut self, weights: Vec<u64>) -> Self {
        self.hit_count_weights = weights;
        self
    }

    fn with_dictionary(mut self, dictionary: Vec<Vec<u8>>) -> Self {
        self.dictionary = dictionary;
        self
    }

    fn finished(&self) -> Rc<RefCell<Vec<usize>>> {
        Rc::clone(&self.finished)
    }

    fn discarded(&self) -> Rc<RefCell<Vec<usize>>> {
        Rc::clone(&self.discarded)
    }
}

impl CoverageCapture for ScriptedCapture {
    type Session = usize;

    fn start_capture(&mut self) -> Result<CaptureStart<usize>, String> {
        let token = self.next_token;
        self.next_token += 1;
        Ok(CaptureStart::Started(token))
    }

    fn finish_capture(&mut self, token: usize) -> Result<ExecutionFeedback, String> {
        self.finished.borrow_mut().push(token);
        let coverage = self.coverages.get(token).cloned().unwrap_or_default();
        let mut feedback = ExecutionFeedback::from_features(features(&coverage))
            .with_dictionary(self.dictionary.clone());
        if let Some(weight) = self.hit_count_weights.get(token) {
            feedback = feedback.with_hit_count_weight(*weight);
        }
        Ok(feedback)
    }

    fn discard_capture(&mut self, token: usize) -> Result<(), String> {
        self.discarded.borrow_mut().push(token);
        Ok(())
    }
}

/// A generator of a case, as a source of random values.
struct Source<'a, Session>(&'a mut CaseRng<Session>);

impl<Session> RngCore for Source<'_, Session> {
    fn next_u32(&mut self) -> u32 {
        self.0.next_u32()
    }

    fn next_u64(&mut self) -> u64 {
        self.0.next_u64()
    }

    fn fill_bytes(&mut self, dst: &mut [u8]) {
        let bytes = self.0.fill_bytes(dst.len());
        dst.copy_from_slice(&bytes);
    }
}

fn begin<C: CoverageCapture>(engine: &mut Engine<C>) -> Option<CaseRng<C::Session>> {
    let candidate = engine.next(None)?;
    match engine.start(candidate) {
        CaseStart::Running(rng) => Some(rng),
        _ => None,
    }
}

fn sample_byte<S>(rng: &mut CaseRng<S>) -> u8 {
    Source(rng).random()
}

fn run_samples<C: CoverageCapture>(engine: &mut Engine<C>, count: usize) {
    for _ in 0..count {
        let mut rng = begin(engine).expect("rng");
        let _ = sample_byte(&mut rng);
        rng.coverage(engine, ENERGY).expect("finish coverage");
    }
}

fn fork_case_with_trace_len(len: usize) -> Trace {
    let mut runner = curious().with_coverage(ScriptedCapture::new(vec![vec![1]]));
    let mut rng = begin(&mut runner.engine).expect("case source rng");
    rng.fill_bytes(len);
    rng.fork_case()
}

fn best_path_score<C>(search: &Cautious<C>) -> Option<(usize, u64, usize)> {
    let best = search.engine.state.min_path_best?;
    Some((best.features, best.hit_count_weight, best.bytes))
}

fn corpus_path_lens<C>(search: &Cautious<C>) -> Vec<usize> {
    search.engine.state.corpus.iter().map(|entry| entry.path_len).collect()
}

#[test]
fn curious_yields_rng_and_records_on_drop() {
    let mut curious = curious().with_coverage(TestCapture { next_id: 1 });

    {
        let mut rng = begin(&mut curious.engine).expect("first rng");
        let _ = Source(&mut rng).random::<u64>();
        rng.coverage(&mut curious.engine, ENERGY).expect("finish");
    }

    let stats = curious.stats();
    assert_eq!(stats.generated(), 1);
    assert_eq!(stats.executed(), 1);
    assert_eq!(stats.accepted(), 1);
    assert_eq!(stats.coverage_ids(), 1);
}

#[test]
fn cautious_accepts_first_seed_then_smaller_code_paths() {
    let case = fork_case_with_trace_len(8);
    let mut cautious = cautious()
        .with_coverage(ScriptedCapture::new(vec![
            vec![1, 2, 3],
            vec![1, 2, 3, 4],
            vec![1, 2],
        ]))
        .with_case(case);

    for _ in 0..3 {
        let mut rng = begin(&mut cautious.engine).expect("cautious rng");
        rng.fill_bytes(8);
        rng.coverage(&mut cautious.engine, ENERGY).expect("finish");
    }

    let stats = cautious.stats();
    assert_eq!(stats.generated(), 3);
    assert_eq!(stats.executed(), 3);
    assert_eq!(stats.accepted(), 3);
    assert_eq!(stats.coverage_ids(), 2);
    assert_eq!(best_path_score(&cautious), Some((2, 2, 8)));
}

#[test]
fn fuzzing_style_map_sample_for_each_assert_records_each_iteration() {
    let mut curious =
        curious().with_coverage(ScriptedCapture::new(vec![vec![1], vec![2], vec![3]]));

    run_samples(&mut curious.engine, 3);

    let stats = curious.stats();
    assert_eq!(stats.generated(), 3);
    assert_eq!(stats.executed(), 3);
    assert_eq!(stats.accepted(), 3);
    assert_eq!(stats.coverage_ids(), 3);
    assert_eq!(stats.mutated(), 2);
}

#[test]
fn rng_discard_consumes_and_excludes_coverage() {
    let capture = ScriptedCapture::new(vec![vec![1], vec![2]]);
    let finished = capture.finished();
    let discarded = capture.discarded();
    let mut curious = curious().with_coverage(capture);

    {
        let rng = begin(&mut curious.engine).expect("first rng");
        rng.discard(&mut curious.engine).expect("discard");
    }
    let rng = begin(&mut curious.engine).expect("second rng");
    rng.coverage(&mut curious.engine, ENERGY).expect("finish");

    let stats = curious.stats();
    assert_eq!(stats.generated(), 2);
    assert_eq!(stats.executed(), 2);
    assert_eq!(stats.accepted(), 1);
    assert_eq!(*finished.borrow(), [1]);
    assert_eq!(*discarded.borrow(), [0]);
}

#[test]
fn rng_coverage_consumes_and_reports_feature_and_byte_counts() {
    let capture = ScriptedCapture::new(vec![vec![1, 2, 3]]);
    let finished = capture.finished();
    let mut curious = curious().with_coverage(capture);

    let coverage = {
        let mut rng = begin(&mut curious.engine).expect("first rng");
        rng.fill_bytes(5);
        rng.coverage(&mut curious.engine, ENERGY).expect("finish coverage")
    };

    assert_eq!(coverage.feature_count(), 3);
    assert_eq!(coverage.hit_count_weight(), 3);
    assert_eq!(coverage.bytes_consumed(), 5);
    assert_eq!(*finished.borrow(), [0]);

    let stats = curious.stats();
    assert_eq!(stats.generated(), 1);
    assert_eq!(stats.executed(), 1);
    assert_eq!(stats.accepted(), 1);
    assert_eq!(stats.coverage_ids(), 3);
}

#[test]
fn fork_case_replays_consumed_rng_path() {
    let mut discovery = curious().with_coverage(ScriptedCapture::new(vec![vec![1]]));
    let (case, original) = {
        let mut rng = begin(&mut discovery.engine).expect("discovery rng");
        let bytes = [sample_byte(&mut rng), sample_byte(&mut rng), sample_byte(&mut rng)];
        (rng.fork_case(), bytes)
    };

    let mut replay = cautious().with_coverage(NoCoverage).with_case(case);
    let mut rng = begin(&mut replay.engine).expect("replay rng");
    let replayed = [sample_byte(&mut rng), sample_byte(&mut rng), sample_byte(&mut rng)];

    assert_eq!(replayed, original);
}

#[test]
fn fork_case_replays_consumed_rng_paths_longer_than_mutation_prefix_limit() {
    let len = 5000;
    let mut discovery =
        curious().with_coverage(ScriptedCapture::new(vec![vec![1]])).with_seed(99);
    let (case, original) = {
        let mut rng = begin(&mut discovery.engine).expect("discovery rng");
        let bytes = rng.fill_bytes(len);
        (rng.fork_case(), bytes)
    };

    let mut replay =
        cautious().with_coverage(ScriptedCapture::new(vec![vec![1]])).with_case(case);
    let replayed = {
        let mut rng = begin(&mut replay.engine).expect("cautious replay rng");
        rng.fill_bytes(len)
    };

    assert_eq!(replayed, original);
}

fn word_values<S>(rng: &mut CaseRng<S>) -> ([u8; 7], u16, u32, u64, u32) {
    let mut source = Source(rng);
    let mut bytes = [0; 7];
    source.fill_bytes(&mut bytes);
    (
        bytes,
        source.random::<u16>(),
        source.random::<u32>(),
        source.random::<u64>(),
        source.random_range(0..1000u32),
    )
}

#[test]
fn cautious_with_case_replays_word_rng_path() {
    let mut discovery =
        curious().with_coverage(ScriptedCapture::new(vec![vec![1]])).with_seed(99);
    let (case, original) = {
        let mut rng = begin(&mut discovery.engine).expect("discovery rng");
        let values = word_values(&mut rng);
        (rng.fork_case(), values)
    };

    let mut replay =
        cautious().with_coverage(ScriptedCapture::new(vec![vec![1]])).with_case(case);
    let replayed = {
        let mut rng = begin(&mut replay.engine).expect("cautious replay rng");
        word_values(&mut rng)
    };

    assert_eq!(replayed, original);
}

#[test]
fn seeded_cases_run_before_fresh_roots() {
    let mut source =
        curious().with_seed(123).with_coverage(ScriptedCapture::new(vec![vec![1]]));
    let (case, seeded_bytes) = {
        let mut rng = begin(&mut source.engine).expect("source rng");
        let bytes = [sample_byte(&mut rng), sample_byte(&mut rng)];
        (rng.fork_case(), bytes)
    };
    let fresh_bytes = {
        let mut fresh =
            curious().with_seed(5).with_coverage(ScriptedCapture::new(vec![vec![1]]));
        let mut rng = begin(&mut fresh.engine).expect("fresh rng");
        [sample_byte(&mut rng), sample_byte(&mut rng)]
    };

    let mut curious = curious()
        .with_seed(5)
        .with_coverage(ScriptedCapture::new(vec![vec![1], vec![2]]))
        .with_case(case);

    let first = {
        let mut rng = begin(&mut curious.engine).expect("seeded rng");
        let bytes = [sample_byte(&mut rng), sample_byte(&mut rng)];
        rng.discard(&mut curious.engine).expect("discard");
        bytes
    };
    let second = {
        let mut rng = begin(&mut curious.engine).expect("fresh rng");
        [sample_byte(&mut rng), sample_byte(&mut rng)]
    };

    assert_eq!(first, seeded_bytes);
    assert_eq!(second, fresh_bytes);
}

#[test]
fn cautious_without_case_yields_no_variants() {
    let mut cautious = cautious().with_coverage(ScriptedCapture::new(vec![vec![1]]));

    assert!(cautious.next(None).is_none());
    assert_eq!(cautious.stats().generated(), 0);
}

#[test]
fn fuzzing_style_maximize_accepts_only_new_coverage() {
    let mut curious =
        curious().with_coverage(ScriptedCapture::new(vec![vec![1], vec![1], vec![1, 2]]));

    run_samples(&mut curious.engine, 3);

    let stats = curious.stats();
    assert_eq!(stats.generated(), 3);
    assert_eq!(stats.executed(), 3);
    assert_eq!(stats.accepted(), 2);
    assert_eq!(stats.coverage_ids(), 2);
    assert_eq!(stats.mutated(), 2);
}

#[test]
fn cautious_accepts_smaller_code_paths() {
    let case = fork_case_with_trace_len(8);
    let mut cautious = cautious()
        .with_coverage(ScriptedCapture::new(vec![
            vec![1, 2, 3],
            vec![1, 2, 3, 4],
            vec![1, 2],
            vec![1],
        ]))
        .with_case(case);

    run_samples(&mut cautious.engine, 4);

    let stats = cautious.stats();
    assert_eq!(stats.generated(), 4);
    assert_eq!(stats.executed(), 4);
    assert_eq!(stats.accepted(), 4);
    assert_eq!(stats.coverage_ids(), 1);
    assert_eq!(stats.mutated(), 3);
    assert_eq!(best_path_score(&cautious), Some((1, 1, 4)));
}

#[test]
fn cautious_rejects_discarded_smaller_paths() {
    let capture = ScriptedCapture::new(vec![vec![1, 2, 3], vec![1]]);
    let finished = capture.finished();
    let discarded = capture.discarded();
    let case = fork_case_with_trace_len(8);
    let mut cautious = cautious().with_coverage(capture).with_case(case);

    {
        let mut rng = begin(&mut cautious.engine).expect("first rng");
        let _ = sample_byte(&mut rng);
        rng.coverage(&mut cautious.engine, ENERGY).expect("finish");
    }
    {
        let mut rng = begin(&mut cautious.engine).expect("second rng");
        let _ = sample_byte(&mut rng);
        rng.discard(&mut cautious.engine).expect("discard");
    }

    let stats = cautious.stats();
    assert_eq!(stats.generated(), 2);
    assert_eq!(stats.executed(), 2);
    assert_eq!(stats.accepted(), 1);
    assert_eq!(stats.coverage_ids(), 3);
    assert_eq!(*finished.borrow(), [0]);
    assert_eq!(*discarded.borrow(), [1]);
}

#[test]
fn cautious_havoc_keeps_generating_byte_variants() {
    let case = fork_case_with_trace_len(4);
    let mut cautious =
        cautious().with_coverage(ScriptedCapture::repeated(32)).with_case(case);

    {
        let mut rng = begin(&mut cautious.engine).expect("seed rng");
        rng.fill_bytes(4);
        rng.coverage(&mut cautious.engine, ENERGY).expect("finish");
    }

    let mut variants = 0;
    for _ in 0..64 {
        let Some(mut rng) = begin(&mut cautious.engine) else {
            break;
        };
        rng.fill_bytes(4);
        rng.discard(&mut cautious.engine).expect("discard");
        variants += 1;
    }

    assert_eq!(variants, 64, "cautious should keep producing byte variants");
    let stats = cautious.stats();
    assert_eq!(stats.generated(), variants + 1);
    assert_eq!(stats.executed(), variants + 1);
    assert_eq!(stats.accepted(), 1);
}

#[test]
fn cautious_best_neighbors_try_structural_shrinks_before_byte_budget_is_exhausted() {
    let case = Trace::from_raw_parts(0, vec![255; 80], true);
    let mut cautious =
        cautious().with_coverage(ScriptedCapture::repeated(16)).with_case(case);

    {
        let mut rng = begin(&mut cautious.engine).expect("seed rng");
        rng.fill_bytes(80);
        rng.coverage(&mut cautious.engine, ENERGY).expect("finish seed coverage");
    }

    let mut saw_structural_shrink = false;
    for _ in 0..8 {
        let Some(mut rng) = begin(&mut cautious.engine) else {
            break;
        };
        let bytes = rng.fill_bytes(80);
        saw_structural_shrink |= bytes[79] == 0;
        rng.discard(&mut cautious.engine).expect("discard");
    }

    assert!(
        saw_structural_shrink,
        "best-neighbor queue should try prefix deletion/truncation before byte shrinks can exhaust it"
    );
}

#[test]
fn cautious_best_neighbors_try_small_word_targets() {
    let case = Trace::from_raw_parts(0, vec![44, 1, 0, 0], true);
    let mut cautious =
        cautious().with_coverage(ScriptedCapture::repeated(64)).with_case(case);

    {
        let mut rng = begin(&mut cautious.engine).expect("seed rng");
        let len = Source(&mut rng).random::<u16>() % 512;
        assert_eq!(len, 300);
        rng.coverage(&mut cautious.engine, ENERGY).expect("finish seed coverage");
    }

    let mut found = false;
    for _ in 0..64 {
        let Some(mut rng) = begin(&mut cautious.engine) else {
            break;
        };
        let len = Source(&mut rng).random::<u16>() % 512;
        if len == 11 {
            rng.coverage(&mut cautious.engine, ENERGY).expect("finish word-shrunk coverage");
            found = true;
            break;
        }
        rng.discard(&mut cautious.engine).expect("discard");
    }

    assert!(
        found,
        "best-neighbor queue should try small little-endian word targets directly"
    );
}

#[test]
fn cautious_minimizes_feature_count_before_rng_bytes() {
    let case = fork_case_with_trace_len(8);
    let mut cautious = cautious()
        .with_coverage(ScriptedCapture::new(vec![vec![1, 2], vec![1, 2, 3]]))
        .with_case(case);

    {
        let mut rng = begin(&mut cautious.engine).expect("first rng");
        rng.fill_bytes(4);
        rng.coverage(&mut cautious.engine, ENERGY).expect("finish");
    }
    {
        let mut rng = begin(&mut cautious.engine).expect("second rng");
        rng.fill_bytes(1);
        rng.coverage(&mut cautious.engine, ENERGY).expect("finish");
    }

    let stats = cautious.stats();
    assert_eq!(stats.generated(), 2);
    assert_eq!(stats.executed(), 2);
    assert_eq!(stats.accepted(), 2);
    assert_eq!(best_path_score(&cautious), Some((2, 2, 4)));
    assert_eq!(corpus_path_lens(&cautious), [4, 1]);
}

#[test]
fn cautious_minimizes_case_cost_before_coverage_features() {
    let larger_coverage = Trace::from_raw_parts(0, vec![1, 2, 3, 4], true);
    let smaller_coverage = Trace::from_raw_parts(0, vec![1], true);
    let mut cautious = cautious()
        .with_coverage(ScriptedCapture::new(vec![vec![1, 2, 3], vec![1]]))
        .with_cases(vec![larger_coverage, smaller_coverage]);

    {
        let mut rng = begin(&mut cautious.engine).expect("first rng");
        rng.fill_bytes(4);
        let coverage = rng
            .coverage_with_cost(&mut cautious.engine, CaseCost::from(1), ENERGY)
            .expect("finish first case");
        assert_eq!(coverage.case_cost(), 1.into());
    }
    {
        let mut rng = begin(&mut cautious.engine).expect("second rng");
        rng.fill_bytes(1);
        rng.coverage_with_cost(&mut cautious.engine, CaseCost::from(2), ENERGY)
            .expect("finish second case");
    }

    let best = cautious.engine.state.min_path_best.expect("best score");
    assert_eq!(best.case_cost, 1.into());
    assert_eq!(best_path_score(&cautious), Some((3, 3, 4)));
}

#[test]
fn case_cost_orders_lower_values_first() {
    assert!(CaseCost::from(2) < CaseCost::from(3));
}

#[test]
fn cautious_minimizes_hit_count_weight_before_rng_bytes() {
    let first = Trace::from_raw_parts(0, vec![1], true);
    let second = Trace::from_raw_parts(0, vec![1, 2, 3, 4], true);
    let mut cautious = cautious()
        .with_coverage(
            ScriptedCapture::new(vec![vec![1], vec![1]]).with_hit_count_weights(vec![10, 1]),
        )
        .with_case(first)
        .with_case(second);

    {
        let mut rng = begin(&mut cautious.engine).expect("first rng");
        rng.fill_bytes(1);
        rng.coverage(&mut cautious.engine, ENERGY).expect("finish");
    }
    {
        let mut rng = begin(&mut cautious.engine).expect("second rng");
        rng.fill_bytes(4);
        rng.coverage(&mut cautious.engine, ENERGY).expect("finish");
    }

    let stats = cautious.stats();
    assert_eq!(stats.generated(), 2);
    assert_eq!(stats.executed(), 2);
    assert_eq!(stats.accepted(), 2);
    assert_eq!(best_path_score(&cautious), Some((1, 1, 4)));
}

#[test]
fn cautious_uses_rng_bytes_as_feature_count_tie_breaker() {
    let case = fork_case_with_trace_len(8);
    let mut cautious = cautious()
        .with_coverage(ScriptedCapture::new(vec![vec![1], vec![1]]))
        .with_case(case);

    {
        let mut rng = begin(&mut cautious.engine).expect("first rng");
        rng.fill_bytes(4);
        rng.coverage(&mut cautious.engine, ENERGY).expect("finish");
    }
    {
        let mut rng = begin(&mut cautious.engine).expect("second rng");
        rng.fill_bytes(2);
        rng.coverage(&mut cautious.engine, ENERGY).expect("finish");
    }

    let stats = cautious.stats();
    assert_eq!(stats.generated(), 2);
    assert_eq!(stats.executed(), 2);
    assert_eq!(stats.accepted(), 2);
    assert_eq!(best_path_score(&cautious), Some((1, 1, 2)));
    assert_eq!(corpus_path_lens(&cautious), [4, 2]);
}

#[test]
fn cautious_promotes_equal_length_simpler_rng_traces() {
    let case = Trace::from_raw_parts(0, vec![255; 32], true);
    let mut cautious = cautious()
        .with_coverage(ScriptedCapture::new(vec![vec![1], vec![1]]))
        .with_case(case);

    {
        let mut rng = begin(&mut cautious.engine).expect("initial failing rng");
        rng.fill_bytes(32);
        rng.coverage(&mut cautious.engine, ENERGY).expect("finish initial case");
    }
    {
        let mut rng = begin(&mut cautious.engine).expect("same-length simpler rng");
        rng.fill_bytes(32);
        rng.coverage(&mut cautious.engine, ENERGY).expect("finish simpler case");
    }

    assert_eq!(best_path_score(&cautious), Some((1, 1, 32)));
    let best = cautious.engine.state.min_path_best.expect("best score");
    assert!(
        best.nonzero_bytes < 32,
        "equal public score variants with simpler traces should become the cautious shrink frontier"
    );
}

#[test]
fn cautious_draw_spans_prioritize_length_like_first_draw() {
    let mut prefix = 200_u32.to_le_bytes().to_vec();
    prefix.extend(std::iter::repeat_n(255, 32));
    let draws = (0..9).map(|index| TraceEvent::Draw {
        bytes: prefix[index * 4..index * 4 + 4].to_vec(),
        affinity: ByteAffinity::Any,
    });
    let case = Trace {
        root: TraceNode { events: draws.collect() },
        ..Trace::from_raw_parts(0, prefix.clone(), true)
    };
    let mut cautious =
        cautious().with_coverage(ScriptedCapture::repeated(8)).with_case(case);

    {
        let mut rng = begin(&mut cautious.engine).expect("seed rng");
        assert_eq!(rng.next_u32(), 200);
        rng.coverage(&mut cautious.engine, ENERGY).expect("finish seed coverage");
    }

    let mut observed = Vec::new();
    for _ in 0..4 {
        let mut rng = begin(&mut cautious.engine).expect("reduction");
        observed.push(rng.next_u32());
        rng.discard(&mut cautious.engine).expect("discard");
    }

    assert_eq!(
        observed,
        [0, 1, 2, 3],
        "draw-aware cautious shrinking should try small length-like values before generic byte havoc"
    );
}

#[test]
fn cautious_discard_updates_reducer_feedback_and_keeps_shrinking() {
    let case = Trace::from_raw_parts(0, vec![10, 11, 12, 13], true);
    let mut cautious =
        cautious().with_coverage(ScriptedCapture::repeated(16)).with_case(case);

    {
        let mut rng = begin(&mut cautious.engine).expect("seed rng");
        rng.fill_bytes(4);
        rng.coverage(&mut cautious.engine, ENERGY).expect("finish seed coverage");
    }

    let first_reduction = {
        let mut rng = begin(&mut cautious.engine).expect("first reduction");
        let bytes = rng.fill_bytes(4);
        rng.discard(&mut cautious.engine).expect("discard");
        bytes
    };
    let reducer = &cautious.engine.state.cautious_reducer;
    assert_eq!(reducer.rejects, 1);
    assert!(reducer.range_pressure.iter().any(|value| *value > 1));

    let second_reduction = {
        let mut rng = begin(&mut cautious.engine).expect("second reduction");
        let bytes = rng.fill_bytes(4);
        rng.discard(&mut cautious.engine).expect("discard");
        bytes
    };

    assert_eq!(first_reduction, [0, 0, 0, 0]);
    assert_ne!(second_reduction, first_reduction);
}

#[test]
fn cautious_shortlex_promotes_equal_score_lexicographically_smaller_trace() {
    let larger = Trace::from_raw_parts(0, vec![2], true);
    let smaller = Trace::from_raw_parts(0, vec![1], true);
    let mut cautious = cautious()
        .with_coverage(ScriptedCapture::new(vec![vec![1], vec![1]]))
        .with_cases(vec![larger, smaller]);

    for _ in 0..2 {
        let mut rng = begin(&mut cautious.engine).expect("seeded rng");
        rng.fill_bytes(1);
        rng.coverage(&mut cautious.engine, ENERGY).expect("finish seeded coverage");
    }

    assert_eq!(best_path_score(&cautious), Some((1, 1, 1)));
    let state = &cautious.engine.state;
    assert_eq!(state.min_path_best.expect("best score").nonzero_bytes, 1);
    let index = state.min_path_best_index.expect("best index");
    assert_eq!(state.corpus[index].prefix, vec![1]);
}

#[test]
fn cautious_block_zero_pass_can_zero_whole_trace() {
    let case = Trace::from_raw_parts(0, vec![5, 6, 7, 8], true);
    let mut cautious =
        cautious().with_coverage(ScriptedCapture::repeated(128)).with_case(case);

    {
        let mut rng = begin(&mut cautious.engine).expect("seed rng");
        rng.fill_bytes(4);
        rng.coverage(&mut cautious.engine, ENERGY).expect("finish seed coverage");
    }

    let mut found_zero_block = false;
    for _ in 0..128 {
        let Some(mut rng) = begin(&mut cautious.engine) else {
            break;
        };
        let bytes = rng.fill_bytes(4);
        if bytes == [0, 0, 0, 0] {
            rng.coverage(&mut cautious.engine, ENERGY).expect("finish zero block candidate");
            found_zero_block = true;
            break;
        }
        rng.discard(&mut cautious.engine).expect("discard");
    }

    assert!(found_zero_block);
}

#[test]
fn cautious_dictionary_repair_pass_uses_feedback_dictionary() {
    let case = Trace::from_raw_parts(0, vec![9, 9, 9], true);
    let mut cautious = cautious()
        .with_coverage(ScriptedCapture::repeated(512).with_dictionary(vec![vec![7, 0, 7]]))
        .with_case(case);

    {
        let mut rng = begin(&mut cautious.engine).expect("seed rng");
        rng.fill_bytes(3);
        rng.coverage(&mut cautious.engine, ENERGY).expect("finish seed coverage");
    }

    let mut found_dictionary_repair = false;
    for _ in 0..512 {
        let Some(mut rng) = begin(&mut cautious.engine) else {
            break;
        };
        let bytes = rng.fill_bytes(3);
        if bytes == [7, 0, 7] {
            rng.coverage(&mut cautious.engine, ENERGY)
                .expect("finish dictionary repair candidate");
            found_dictionary_repair = true;
            break;
        }
        rng.discard(&mut cautious.engine).expect("discard");
    }

    assert!(found_dictionary_repair);
}

fn sample_modulo_len_payload<S>(rng: &mut CaseRng<S>) -> usize {
    let len = (Source(rng).random::<u16>() % 64) as usize;
    rng.fill_bytes(len);
    len
}

fn sample_range_len_payload<S>(rng: &mut CaseRng<S>) -> usize {
    let mut range = rng.range(Edge::Included(0), Edge::Excluded(64));
    let mut count = 0;
    while let Some(child) = range.next(rng) {
        let _ = sample_byte(rng);
        child.close(&mut range, rng);
        count += 1;
    }
    range.close(rng);
    count
}

fn sample_byte_sequence<S>(rng: &mut CaseRng<S>) -> Vec<u8> {
    let mut range = rng.range(Edge::Included(0), Edge::Excluded(8));
    let mut bytes = Vec::new();
    while let Some(child) = range.next(rng) {
        bytes.push(rng.fill_bytes(1)[0]);
        child.close(&mut range, rng);
    }
    range.close(rng);
    bytes
}

#[test]
fn range_yields_rng_like_children() {
    let mut cases = curious().with_coverage(NoCoverage);
    let mut rng = begin(&mut cases.engine).expect("case rng");
    let values = {
        let mut items = rng.range(Edge::Included(1), Edge::Included(3));
        let mut values = Vec::new();
        while let Some(item) = items.next(&rng) {
            let first: usize = Source(&mut rng).random_range(0..4);
            values.push((first, sample_byte(&mut rng)));
            item.close(&mut items, &mut rng);
        }
        items.close(&mut rng);
        values
    };

    assert!((1..=3).contains(&values.len()));
    rng.discard(&mut cases.engine).expect("discard");
}

#[test]
fn cautious_minimizes_word_modulo_length_prefix() {
    let mut prefix = vec![63, 0, 0, 0];
    prefix.extend(std::iter::repeat_n(0, 63));
    let case = Trace::from_raw_parts(0, prefix, true);
    let mut cautious =
        cautious().with_coverage(ScriptedCapture::repeated(128)).with_case(case);

    let mut best_len = usize::MAX;
    for _ in 0..128 {
        let Some(mut rng) = begin(&mut cautious.engine) else {
            break;
        };
        let len = sample_modulo_len_payload(&mut rng);
        if len == 0 {
            rng.discard(&mut cautious.engine).expect("discard");
            continue;
        }

        rng.coverage(&mut cautious.engine, ENERGY).expect("finish cautious modulo candidate");
        best_len = best_len.min(len);
    }

    assert_eq!(best_len, 1);
}

#[test]
fn cautious_uses_range_length_before_generic_byte_shrinks() {
    let mut prefix = 20_u32.to_le_bytes().to_vec();
    prefix.extend(std::iter::repeat_n(255, 20));
    let case = Trace::from_raw_parts(0, prefix, true);
    let mut cautious =
        cautious().with_coverage(ScriptedCapture::repeated(4)).with_case(case);

    {
        let mut rng = begin(&mut cautious.engine).expect("seed rng");
        assert_eq!(sample_range_len_payload(&mut rng), 20);
        rng.coverage(&mut cautious.engine, ENERGY).expect("finish seed coverage");
    }

    let mut rng = begin(&mut cautious.engine).expect("range length reduction");
    assert_eq!(sample_range_len_payload(&mut rng), 0);
    rng.discard(&mut cautious.engine).expect("discard");
}

fn seeded_sequence(items: &[u8], capture: ScriptedCapture) -> Cautious<ScriptedCapture> {
    let mut prefix = (items.len() as u32).to_le_bytes().to_vec();
    prefix.extend(items);
    let case = Trace::from_raw_parts(0, prefix, true);
    let mut cautious = cautious().with_coverage(capture).with_case(case);
    let mut rng = begin(&mut cautious.engine).expect("seed rng");
    assert_eq!(sample_byte_sequence(&mut rng), items);
    rng.coverage(&mut cautious.engine, ENERGY).expect("finish seed coverage");
    cautious
}

fn finds_sequence(cautious: &mut Cautious<ScriptedCapture>, tries: usize, wanted: &[&[u8]]) -> bool {
    for _ in 0..tries {
        let Some(mut rng) = begin(&mut cautious.engine) else {
            return false;
        };
        let items = sample_byte_sequence(&mut rng);
        rng.discard(&mut cautious.engine).expect("discard");
        if wanted.contains(&items.as_slice()) {
            return true;
        }
    }
    false
}

#[test]
fn cautious_sequence_delete_lowers_length_and_removes_item_bytes() {
    let mut cautious = seeded_sequence(&[10, 20, 30], ScriptedCapture::repeated(4));

    let mut rng = begin(&mut cautious.engine).expect("sequence delete");
    assert_eq!(sample_byte_sequence(&mut rng), Vec::<u8>::new());
    rng.discard(&mut cautious.engine).expect("discard");
}

#[test]
fn cautious_sequence_projection_can_keep_non_contiguous_items() {
    let mut cautious = seeded_sequence(&[10, 20, 30, 40], ScriptedCapture::repeated(64));

    assert!(
        finds_sequence(&mut cautious, 512, &[&[10, 30], &[20, 40]]),
        "sequence projection should try non-contiguous item subsets"
    );
}

#[test]
fn cautious_sequence_projection_can_move_later_item_to_front() {
    let mut cautious = seeded_sequence(&[10, 20, 30], ScriptedCapture::repeated(64));

    assert!(
        finds_sequence(&mut cautious, 64, &[&[30]]),
        "sequence projection should try keeping a later item as the only item"
    );
}

#[test]
fn cautious_sequence_replace_reuses_simpler_prior_items() {
    let mut cautious = seeded_sequence(&[1, 99, 99], ScriptedCapture::repeated(128));

    assert!(
        finds_sequence(&mut cautious, 128, &[&[1, 1, 99], &[1, 99, 1]]),
        "sequence replacement should reuse simpler earlier item bytes"
    );
}

#[test]
fn fuzzing_style_reuses_and_mutates_successful_rng_prefixes() {
    let mut curious = curious().with_coverage(ScriptedCapture::new(vec![
        vec![1],
        vec![2],
        vec![3],
        vec![4],
    ]));
    let mut samples = Vec::new();
    for _ in 0..4 {
        let mut rng = begin(&mut curious.engine).expect("rng");
        samples.push([sample_byte(&mut rng), sample_byte(&mut rng), sample_byte(&mut rng)]);
        rng.coverage(&mut curious.engine, ENERGY).expect("finish");
    }

    let stats = curious.stats();
    assert_eq!(stats.executed(), 4);
    assert_eq!(stats.accepted(), 4);
    assert_eq!(stats.mutated(), 3);
    assert_ne!(
        samples[0], samples[1],
        "after the first accepted case, subsequent samples should come from mutated RNG prefixes"
    );
}

fn two_samples(depth: usize) -> Vec<Vec<u8>> {
    let search: Curious<ScriptedCapture> =
        curious().with_seed(7).with_coverage(ScriptedCapture::new(vec![vec![1], vec![2]]));
    let mut engine = search.engine.with_mutate_depth(depth);
    let mut samples = Vec::new();
    for _ in 0..2 {
        let mut rng = begin(&mut engine).expect("rng");
        samples.push(rng.fill_bytes(16));
        rng.coverage(&mut engine, ENERGY).expect("finish");
    }
    samples
}

#[test]
fn mutate_depth_stacks_prefix_mutations() {
    let shallow_samples = two_samples(1);
    let deep_samples = two_samples(5);

    assert_eq!(shallow_samples[0], deep_samples[0]);
    assert_ne!(
        shallow_samples[1], deep_samples[1],
        "stacking more prefix mutations should change the generated neighbourhood"
    );
}

#[test]
fn cautious_merges_dictionary_values_from_failing_corpus() {
    let case = fork_case_with_trace_len(4);
    let mut cautious = cautious()
        .with_coverage(
            ScriptedCapture::new(vec![vec![1]]).with_dictionary(vec![vec![0x13, 0x37]]),
        )
        .with_case(case);

    {
        let mut rng = begin(&mut cautious.engine).expect("initial cautious rng");
        rng.fill_bytes(4);
        rng.coverage(&mut cautious.engine, ENERGY).expect("finish cautious dictionary case");
    }

    assert_eq!(cautious.engine.state.dictionary, vec![vec![0x13, 0x37]]);
}

#[test]
fn fresh_root_cadence_keeps_exploring_unmutated_roots() {
    let search =
        curious().with_coverage(ScriptedCapture::new((0..9).map(|id| vec![id + 1]).collect()));
    let mut engine = search.engine.with_seed_ratio(8);

    run_samples(&mut engine, 9);

    let stats = engine.stats();
    assert_eq!(stats.generated(), 9);
    assert_eq!(stats.accepted(), 9);
    assert_eq!(stats.mutated(), 7);
}

#[test]
fn feature_frequencies_count_executions() {
    let mut coverages = vec![vec![1, 100], vec![1, 2]];
    coverages.extend((0..70).map(|_| vec![1, 2]));
    let mut curious = curious().with_coverage(ScriptedCapture::new(coverages));

    run_samples(&mut curious.engine, 72);

    assert_eq!(curious.engine.state.corpus.len(), 2);
    assert_eq!(curious.engine.state.feature_frequency(CoverageId::new(100)), 1);
    assert_eq!(curious.engine.state.feature_frequency(CoverageId::new(2)), 71);
    assert!(curious.engine.state.take_refresh());
    assert!(!curious.engine.state.take_refresh());
}

struct BrokenCapture;

impl CoverageCapture for BrokenCapture {
    type Session = ();

    fn start_capture(&mut self) -> Result<CaptureStart<()>, String> {
        Err("no counters".to_string())
    }

    fn finish_capture(&mut self, _session: ()) -> Result<ExecutionFeedback, String> {
        Err("no feedback".to_string())
    }

    fn discard_capture(&mut self, _session: ()) -> Result<(), String> {
        Err("nothing to discard".to_string())
    }
}

#[test]
fn a_backend_that_cannot_start_runs_no_case() {
    let mut search = curious().with_coverage(BrokenCapture);
    let candidate = search.next(None).expect("candidate");
    assert_eq!(search.engine.state.active_cases, 1);
    match search.engine.start(candidate) {
        CaseStart::Failed(error) => assert_eq!(error, "no counters"),
        _ => panic!("the backend cannot start"),
    }
    assert_eq!(search.engine.state.active_cases, 0);
    assert_eq!(search.stats().executed(), 0);
}

#[test]
fn a_capture_that_fails_is_an_execution_without_feedback() {
    let mut search = curious().with_coverage(BrokenCapture);
    let candidate = search.next(None).expect("candidate");
    let rng = CaseRng::new(&candidate.case, candidate.origin, Some(()));
    let error = rng.coverage(&mut search.engine, ENERGY).expect_err("no feedback");
    assert_eq!(error, "no feedback");
    assert_eq!(search.stats().executed(), 1);
    assert_eq!(search.stats().accepted(), 0);
    assert_eq!(search.engine.state.active_cases, 0);
}

#[test]
fn a_backend_that_cannot_discard_hands_its_error_on() {
    let mut search = curious().with_coverage(BrokenCapture);
    let candidate = search.next(None).expect("candidate");
    let rng = CaseRng::new(&candidate.case, candidate.origin, Some(()));
    let error = rng.discard(&mut search.engine).expect_err("nothing to discard");
    assert_eq!(error, "nothing to discard");
    assert_eq!(search.stats().executed(), 1);
    assert_eq!(search.engine.state.active_cases, 0);
}

#[test]
fn a_case_that_is_let_go_is_discarded_and_not_finished() {
    let capture = ScriptedCapture::repeated(2);
    let (finished, discarded) = (capture.finished(), capture.discarded());
    let mut search = curious().with_coverage(capture);
    let rng = begin(&mut search.engine).expect("rng");
    rng.snapshot_abandon(&mut search.engine);
    let rng = begin(&mut search.engine).expect("rng");
    let (_, execution) =
        rng.finish_detached(&mut search.engine, false, CaseCost::zero()).expect("detached");
    assert!(execution.feedback().is_none());
    assert_eq!(*discarded.borrow(), vec![0, 1]);
    assert!(finished.borrow().is_empty());
}

#[test]
fn a_case_that_never_started_has_no_coverage() {
    let mut search = curious().with_coverage(NoCoverage);
    let candidate = search.next(None).expect("candidate");
    let rng: CaseRng<()> = CaseRng::new(&candidate.case, candidate.origin, None);
    let error = rng.coverage(&mut search.engine, ENERGY).expect_err("never started");
    assert_eq!(error, "coverage capture never started");
}

struct BusyCapture {
    busy: bool,
}

impl CoverageCapture for BusyCapture {
    type Session = ();

    fn start_capture(&mut self) -> Result<CaptureStart<()>, String> {
        if self.busy {
            self.busy = false;
            return Ok(CaptureStart::Busy);
        }
        Ok(CaptureStart::Started(()))
    }

    fn finish_capture(&mut self, _session: ()) -> Result<ExecutionFeedback, String> {
        Ok(ExecutionFeedback::default())
    }

    fn discard_capture(&mut self, _session: ()) -> Result<(), String> {
        Ok(())
    }
}

#[test]
fn a_busy_backend_hands_the_candidate_back() {
    let mut search = curious().with_coverage(BusyCapture { busy: true }).with_seed(3);
    let candidate = search.next(None).expect("candidate");
    let again = match search.engine.start(candidate) {
        CaseStart::Busy(candidate) => candidate,
        _ => panic!("the backend is busy"),
    };
    assert_eq!(again.case.seed, 3);
    assert!(matches!(search.engine.start(again), CaseStart::Running(_)));
}

#[test]
fn take_limits_the_cases() {
    let mut cases = optimize(Goal::MaximizeCoverage).with_coverage(NoCoverage).take(2);
    assert!(cases.next(None).is_some());
    assert!(cases.next(None).is_some());
    assert!(cases.next(None).is_none());
    assert_eq!(cases.remaining, 0);
    assert_eq!(cases.inner.stats().generated(), 2);
}

#[test]
fn fresh_seeds_count_up_and_wrap() {
    let mut search = curious().with_coverage(NoCoverage).with_seed(u64::MAX);
    let first = search.next(None).expect("first");
    let second = search.next(None).expect("second");
    assert_eq!(first.case.seed, u64::MAX);
    assert_eq!(second.case.seed, 0);
}

#[test]
fn a_named_parent_is_the_one_that_is_rewritten() {
    let capture = ScriptedCapture::new(vec![vec![1], vec![2]]);
    let first = Trace::from_raw_parts(40, vec![1, 2, 3, 4], true);
    let second = Trace::from_raw_parts(41, vec![5, 6, 7, 8], true);
    let mut search = curious().with_coverage(capture).with_case(first).with_case(second);
    for _ in 0..2 {
        let mut rng = begin(&mut search.engine).expect("rng");
        rng.fill_bytes(4);
        rng.coverage(&mut search.engine, ENERGY).expect("finish");
    }
    let fallback: u64 = search.engine.state.base_seed + search.engine.state.next;
    let candidate = search.next(Some(1)).expect("candidate");
    assert!(candidate.mutated);
    assert_eq!(candidate.case.seed, 41 ^ fallback.rotate_left(17));
}

#[test]
fn sources_that_are_switched_off_give_nothing() {
    let mut options = CautiousOptions::new();
    options.havoc = false;
    let case = Trace::from_raw_parts(0, vec![0], true);
    let mut search = optimize(Goal::MinimizeCoverage)
        .with_coverage(ScriptedCapture::repeated(8))
        .with_options(options)
        .with_mutations(vec![MutationSource::MinimizingHavoc])
        .with_case(case);
    let mut rng = begin(&mut search.engine).expect("seed");
    rng.fill_bytes(1);
    rng.coverage(&mut search.engine, ENERGY).expect("finish");
    assert!(search.next(None).is_none());
}

#[test]
fn fresh_roots_can_be_switched_on_and_off() {
    let mut without = optimize(Goal::MaximizeCoverage)
        .with_coverage(NoCoverage)
        .with_fresh_roots(false);
    assert!(without.next(None).is_none());
    let mut with = optimize(Goal::MinimizeCoverage)
        .with_coverage(NoCoverage)
        .with_fresh_roots(true);
    assert!(with.next(None).is_some());
}

#[test]
fn scalar_common_offset_success_boosts_scalar_lower_followup() {
    let mut multipliers = [1.0_f64; 15];
    for credit in reward_improved(ReductionOperation::ScalarCommonOffset) {
        multipliers[credit.operation.index()] *= credit.percent as f64 / 100.0;
    }
    let of = |operation: ReductionOperation| multipliers[operation.index()];
    assert!(of(ReductionOperation::ScalarLower) > 1.0);
    assert!(of(ReductionOperation::ScalarLower) > of(ReductionOperation::ScalarCommonOffset));
    assert_eq!(of(ReductionOperation::ByteLower), 1.0);
}

#[test]
fn credits_follow_what_became_of_a_reduction() {
    let group = reward_improved(ReductionOperation::ScalarGroup);
    let percents: Vec<u64> = group.iter().map(|credit| credit.percent).collect();
    assert_eq!(percents, [300, 150, 200]);
    assert_eq!(reward_improved(ReductionOperation::ByteLower).len(), 1);
    assert_eq!(reward_preserved(ReductionOperation::ByteLower).percent, 115);
    assert_eq!(penalize_rejected(ReductionOperation::ByteLower).percent, 50);
}

#[test]
fn a_rejected_reduction_loses_weight() {
    let case = Trace::from_raw_parts(0, vec![10, 11, 12, 13], true);
    let mut search = cautious().with_coverage(ScriptedCapture::repeated(16)).with_case(case);
    let mut rng = begin(&mut search.engine).expect("seed rng");
    rng.fill_bytes(4);
    rng.coverage(&mut search.engine, ENERGY).expect("finish seed coverage");
    assert!(search.engine.state.take_credits().is_empty());

    let candidate = search.next(None).expect("reduction");
    let operation = match &candidate.origin {
        CandidateOrigin::CautiousReduction(id) => id.operation,
        other => panic!("{other:?}"),
    };
    let CaseStart::Running(rng) = search.engine.start(candidate) else {
        panic!("capture starts");
    };
    rng.discard(&mut search.engine).expect("discard");
    let credits = search.engine.state.take_credits();
    assert_eq!(credits, [penalize_rejected(operation)]);
    assert!(search.engine.state.take_credits().is_empty());
}

fn asked(plan: Plan) -> Question {
    match plan {
        Plan::Ask(question) => question,
        _ => panic!("a source is asked"),
    }
}

#[test]
fn a_source_of_the_caller_is_asked_in_its_turn() {
    let mut search = optimize(Goal::MaximizeCoverage)
        .with_coverage(ScriptedCapture::new(vec![vec![1], vec![2]]))
        .with_fresh_roots(false)
        .with_seed(7)
        .with_mutations(vec![
            MutationSource::Custom,
            MutationSource::Custom,
            MutationSource::CoverageHavoc,
        ])
        .with_case(Trace::from_raw_parts(5, vec![1, 2], false));
    let mut rng = begin(&mut search.engine).expect("seed");
    rng.fill_bytes(2);
    rng.coverage(&mut search.engine, ENERGY).expect("finish");

    let state = &mut search.engine.state;
    let first = asked(state.next_plan(Some(0)));
    assert_eq!((first.source, first.parent, first.fallback), (0, 0, 7));
    let second = asked(state.answer(first.source, None, None));
    assert_eq!(second.source, 1);
    let answer = Answer {
        case: Trace::from_raw_parts(9, vec![3], true),
        mutations: vec![MutationKind::XorBit],
    };
    let Plan::Ready(candidate) = state.answer(second.source, Some(answer), None) else {
        panic!("the answer is run");
    };
    assert!(candidate.mutated);
    assert_eq!(candidate.origin.custom_source(), Some(1));
    assert_eq!(candidate.case.seed, 9);
    assert_eq!(state.active_cases, 1);

    let third = asked(state.next_plan(None));
    assert_eq!(third.fallback, 8);
    let fourth = asked(state.answer(third.source, None, None));
    let Plan::Ready(candidate) = state.answer(fourth.source, None, None) else {
        panic!("the built-in source comes last");
    };
    assert!(matches!(candidate.origin, CandidateOrigin::CuriousMutation(_)));
    assert!(matches!(state.answer(7, None, None), Plan::Nothing));
    assert!(state.next_candidate(None).is_some());
}

#[test]
fn a_minimization_makes_all_of_its_cases_from_the_corpus() {
    let case = Trace::from_raw_parts(0, vec![9, 8, 7], true);
    let mut search = cautious().with_coverage(ScriptedCapture::repeated(64)).with_case(case);
    run_samples(&mut search.engine, 1);
    for _ in 0..40 {
        let candidate = search.next(None).expect("candidate");
        assert!(candidate.mutated);
        assert!(!matches!(candidate.origin, CandidateOrigin::SeededCase));
    }
}

#[test]
fn candidates_name_the_rewrites_behind_them() {
    assert!(CandidateOrigin::SeededCase.mutation_kinds().is_empty());
    let havoc = CandidateOrigin::CautiousHavoc(vec![MutationKind::SetByte, MutationKind::XorBit]);
    assert_eq!(havoc.mutation_kinds(), [MutationKind::SetByte, MutationKind::XorBit]);
    assert_eq!(havoc.custom_source(), None);
    let custom = CandidateOrigin::CustomMutation { source: 3, mutations: vec![MutationKind::SetByte] };
    assert_eq!(custom.mutation_kinds(), [MutationKind::SetByte]);
    assert_eq!(custom.custom_source(), Some(3));
}
