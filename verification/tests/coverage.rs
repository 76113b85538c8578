use dowsing::counters::hit_count_bucket;
use dowsing::coverage::{
    CaptureStart, CoverageCapture, CoverageId, CoverageSet, ExecutionFeedback,
    ParallelCoverageCapture,
};
use dowsing::no_coverage::NoCoverage;
use dowsing::score::{CaseCost, CaseCoverage, CautiousOptions, MinPathScore, SearchStats};

fn ids(raw: &[u64]) -> Vec<CoverageId> {
    raw.iter().map(|raw| CoverageId::new(*raw)).collect()
}

fn raw(set: &CoverageSet) -> Vec<u64> {
    set.iter().iter().map(|id| id.raw()).collect()
}

#[test]
fn a_set_holds_each_identifier_once_in_order() {
    let mut set = CoverageSet::new();
    assert!(set.is_empty());
    assert!(set.insert(CoverageId::new(9)));
    assert!(set.insert(CoverageId::new(3)));
    assert!(!set.insert(CoverageId::new(9)));
    assert_eq!(raw(&set), vec![3, 9]);
    assert_eq!(set.len(), 2);
    assert!(set.contains(CoverageId::new(3)));
    assert!(!set.contains(CoverageId::new(4)));
}

#[test]
fn sets_are_joined_and_compared() {
    let mut set = CoverageSet::from_unsorted(ids(&[5, 1, 5, 3]));
    assert_eq!(raw(&set), vec![1, 3, 5]);
    set.extend(ids(&[4, 1, 4, 0]));
    assert_eq!(raw(&set), vec![0, 1, 3, 4, 5]);
    let part = CoverageSet::from_unsorted(ids(&[0, 5]));
    assert!(set.is_superset(&part));
    assert!(!part.is_superset(&set));
    assert!(part.is_superset(&CoverageSet::default()));
    assert_eq!(raw(&set.difference(&part)), vec![1, 3, 4]);
    assert_eq!(set, set.clone());
    assert_ne!(set, part);
}

#[test]
fn feedback_weighs_its_features_unless_told_otherwise() {
    let set = CoverageSet::from_unsorted(ids(&[1, 2]));
    let feedback = ExecutionFeedback::from(set.clone());
    assert_eq!(feedback.hit_count_weight(), 2);
    assert!(feedback.dictionary().is_empty());
    let feedback = feedback.with_hit_count_weight(7).with_dictionary(vec![vec![1]]);
    let (features, weight, dictionary) = feedback.clone().into_parts();
    assert_eq!((features, weight, dictionary), (set, 7, vec![vec![1]]));
    assert!(ExecutionFeedback::default().features().is_empty());
}

#[test]
fn buckets_have_fixed_bounds() {
    let expected = [
        (0, 0),
        (1, 0),
        (2, 1),
        (3, 2),
        (4, 3),
        (7, 3),
        (8, 4),
        (15, 4),
        (16, 5),
        (31, 5),
        (32, 6),
        (127, 6),
        (128, 7),
        (255, 7),
    ];
    for (counter, bucket) in expected {
        assert_eq!(hit_count_bucket(counter), bucket, "counter {counter}");
    }
}

#[test]
fn more_hits_never_fall_into_a_lower_bucket() {
    for counter in 1..=255u8 {
        assert!(hit_count_bucket(counter - 1) <= hit_count_bucket(counter));
    }
}

#[test]
fn no_coverage_sees_nothing() {
    let mut capture = NoCoverage;
    assert!(matches!(capture.start_capture(), Ok(CaptureStart::Started(()))));
    let feedback = capture.finish_capture(()).expect("feedback");
    assert!(feedback.features().is_empty());
    assert_eq!(feedback.hit_count_weight(), 0);
    assert!(capture.discard_capture(()).is_ok());
    assert!(capture.validate_parallel().is_ok());
}

#[test]
fn scores_go_by_cost_then_features_then_weight_then_bytes() {
    let base = CaseCoverage::with_cost(CaseCost::new(1), 2, 3, 4);
    assert!(base < CaseCoverage::with_cost(CaseCost::new(2), 0, 0, 0));
    assert!(base < CaseCoverage::with_cost(CaseCost::new(1), 3, 0, 0));
    assert!(base < CaseCoverage::with_cost(CaseCost::new(1), 2, 4, 0));
    assert!(base < CaseCoverage::with_cost(CaseCost::new(1), 2, 3, 5));
    assert!(!base.is_less(&base));
    assert_eq!(base.case_cost().raw(), 1);
    let simple = MinPathScore::with_case_cost(CaseCost::zero(), 1, 1, 1, 0);
    let complex = MinPathScore::with_case_cost(CaseCost::zero(), 1, 1, 1, 1);
    assert!(simple < complex);
    assert!(simple.is_less(&complex));
    assert!(!complex.is_less(&simple));
}

#[test]
fn options_and_counters_start_fresh() {
    let options = CautiousOptions::default().with_reducer_budget(7);
    assert_eq!(options, CautiousOptions::new().with_reducer_budget(7));
    let stats = SearchStats::default();
    assert_eq!(
        (stats.generated(), stats.executed(), stats.accepted(), stats.mutated()),
        (0, 0, 0, 0)
    );
    assert_eq!(stats.coverage_ids(), 0);
    assert_eq!(CaseCost::default(), CaseCost::zero());
}
