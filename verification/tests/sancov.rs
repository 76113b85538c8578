use dowsing::coverage::{CaptureStart, CoverageCapture, ParallelCoverageCapture};
use dowsing::sancov::{SancovCoverage, SancovSession};

fn start(capture: &mut SancovCoverage) -> SancovSession {
    match capture.start_capture().expect("start capture") {
        CaptureStart::Started(session) => session,
        CaptureStart::Busy => panic!("the backend is never busy"),
    }
}

#[test]
fn counter_feedback_records_edge_buckets() {
    let mut capture = SancovCoverage::new().with_cmp_feedback(false);
    let mut session = start(&mut capture);
    session.record_counter(0, 0);
    session.record_counter(1, 1);
    session.record_counter(2, 9);
    session.record_counter(3, 0);
    let feedback = capture.finish_capture(session).expect("finish capture");

    assert!(
        feedback.features().len() >= 2,
        "two nonzero sanitizer counters should produce edge features"
    );
    assert!(
        feedback.features().iter().iter().any(|id| id.raw() >> 60 == 0),
        "edge counter features should use the edge namespace"
    );
    assert!(
        feedback.hit_count_weight() >= 6,
        "hit-count weight should include nonzero counter bucket weights"
    );
    assert_eq!(feedback.hit_count_weight(), 6);
}

#[test]
fn comparison_feedback_records_features_and_dictionary_values() {
    let mut capture = SancovCoverage::new();
    let mut session = start(&mut capture);
    session.record_comparison(1, 0x41, 0x42);
    let feedback = capture.finish_capture(session).expect("finish capture");

    assert!(
        feedback.features().iter().iter().any(|id| id.raw() >> 60 == 1),
        "comparison callbacks should contribute value-profile features"
    );
    assert!(feedback.dictionary().contains(&vec![0x41]));
    assert!(feedback.dictionary().contains(&vec![0x42]));
}

#[test]
fn switch_feedback_records_all_case_values() {
    let mut capture = SancovCoverage::new();
    let mut session = start(&mut capture);
    session.record_switch(1, 0x40, &vec![0x41, 0x42]);
    let feedback = capture.finish_capture(session).expect("finish capture");

    assert!(
        feedback.features().iter().iter().any(|id| id.raw() >> 60 == 1),
        "switch callbacks should contribute value-profile features"
    );
    assert!(feedback.dictionary().contains(&vec![0x41]));
    assert!(feedback.dictionary().contains(&vec![0x42]));
}

#[test]
fn comparisons_are_not_recorded_when_switched_off() {
    let mut capture = SancovCoverage::new().with_cmp_feedback(false);
    let mut session = start(&mut capture);
    session.record_comparison(8, 1, 2);
    let feedback = capture.finish_capture(session).expect("finish capture");
    assert!(feedback.features().is_empty());
    assert!(feedback.dictionary().is_empty());
}

#[test]
fn the_default_backend_leaves_comparisons_out() {
    assert!(!SancovCoverage::default().comparisons);
    assert!(SancovCoverage::new().comparisons);
}

#[test]
fn parallel_capture_requires_guards() {
    let error = SancovCoverage::new()
        .validate_parallel()
        .expect_err("non-guard Sancov coverage should reject parallel use");
    assert!(
        error.contains("trace-pc-guard"),
        "parallel validation error should mention trace-pc-guard: {error}"
    );
    SancovCoverage::new()
        .with_guards(true)
        .validate_parallel()
        .expect("trace-pc-guard instrumentation should allow parallel Sancov coverage");
}

#[test]
fn edges_and_comparisons_have_features_of_their_own() {
    let mut capture = SancovCoverage::new();
    let mut session = start(&mut capture);
    session.record_counter(5, 3);
    session.record_comparison(4, 7, 7);
    let feedback = capture.finish_capture(session).expect("finish capture");
    let raw: Vec<u64> = feedback.features().iter().iter().map(|id| id.raw()).collect();
    assert_eq!(raw.len(), 2);
    assert_eq!(raw[0], 5 * 256 + 2);
    assert_eq!(raw[1] >> 60, 1);
    assert_eq!(feedback.dictionary(), &vec![vec![7, 0, 0, 0]]);
}
