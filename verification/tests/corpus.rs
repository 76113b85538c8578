use dowsing::candidate::prefix_fingerprint;
use dowsing::coverage::CoverageId;
use dowsing::execution::{DrawKind, DrawRecord, ItemRecord, SequenceRecord};
use dowsing::order::{less_bytes, less_keys, stable_order};
use dowsing::score::CaseCost;
use dowsing::search::corpus::{
    count_nonzero, find_best, find_weakest, find_worst, kept_draws, kept_sequences, prune_corpus,
    CorpusSeed, MAX_CORPUS_LEN,
};
use dowsing::search::dictionary::{merge_dictionary_values, MAX_DICTIONARY_VALUES};
use dowsing::search::frequency::Frequencies;
use dowsing::search::state::{energy_refresh_interval, Goal, SearchState};
use dowsing::trace::Trace;

fn seed(cost: usize, path_len: usize, energy: u64) -> CorpusSeed {
    CorpusSeed {
        case: Trace::empty(0),
        seed: 0,
        prefix: vec![],
        draws: vec![],
        scalars: vec![],
        sequences: vec![],
        coverage: vec![],
        removed: vec![],
        case_cost: CaseCost::new(cost),
        score: 1,
        hit_count_weight: 1,
        path_len,
        nonzero_bytes: 0,
        energy,
    }
}

#[test]
fn identifiers_are_counted_one_by_one() {
    let mut counts = Frequencies::new();
    let (one, two) = (CoverageId::new(1), CoverageId::new(2));
    assert_eq!(counts.of(one), 0);
    counts.count(&vec![one, two]);
    counts.count(&vec![one]);
    assert_eq!((counts.of(one), counts.of(two)), (2, 1));
}

#[test]
fn a_dictionary_takes_each_value_once_up_to_its_limit() {
    let mut dictionary = vec![vec![1]];
    merge_dictionary_values(&mut dictionary, vec![vec![2, 2], vec![], vec![1], vec![2, 2]]);
    assert_eq!(dictionary, vec![vec![1], vec![2, 2]]);
    let many = (0..1000u16).map(|value| value.to_le_bytes().to_vec()).collect();
    merge_dictionary_values(&mut dictionary, many);
    assert_eq!(dictionary.len(), MAX_DICTIONARY_VALUES);
    assert_eq!(dictionary[1], vec![2, 2]);
}

#[test]
fn the_best_the_worst_and_the_weakest_are_found() {
    let corpus = vec![seed(2, 9, 5), seed(1, 7, 9), seed(1, 3, 2), seed(2, 1, 4)];
    assert_eq!(find_best(&corpus), Some(2));
    assert_eq!(find_worst(&corpus), 0);
    assert_eq!(find_weakest(&corpus), 2);
    assert_eq!(find_best(&vec![]), None);
}

#[test]
fn a_corpus_is_pruned_only_above_its_limit() {
    let mut corpus = vec![seed(1, 1, 1), seed(2, 1, 1)];
    assert_eq!(prune_corpus(&mut corpus, true), None);
    assert_eq!(corpus.len(), 2);
    let mut full: Vec<CorpusSeed> =
        (0..=MAX_CORPUS_LEN).map(|place| seed(place % 100, 1, 1000 - (place as u64 % 7))).collect();
    assert_eq!(prune_corpus(&mut full, true), Some(3999));
    assert_eq!(full.len(), MAX_CORPUS_LEN);
    let mut full: Vec<CorpusSeed> =
        (0..=MAX_CORPUS_LEN).map(|place| seed(place % 100, 1, 1000 - (place as u64 % 7))).collect();
    assert_eq!(prune_corpus(&mut full, false), Some(6));
    assert_eq!(full.len(), MAX_CORPUS_LEN);
}

#[test]
fn spans_are_kept_by_their_ends() {
    let draws = kept_draws(&vec![DrawRecord { start: 3, len: 4, kind: DrawKind::Word }]);
    assert_eq!((draws[0].start, draws[0].end), (3, 7));
    let sequences = kept_sequences(&vec![SequenceRecord {
        length_start: 0,
        length_len: 4,
        items: vec![ItemRecord { start: 4, len: 2 }],
    }]);
    assert_eq!((sequences[0].items[0].start, sequences[0].items[0].end), (4, 6));
    assert_eq!(count_nonzero(&vec![0, 1, 0, 255]), 2);
}

#[test]
fn orders_are_stable() {
    let keys = vec![vec![2, 0], vec![1, 9], vec![2, 0], vec![1, 0]];
    assert_eq!(stable_order(&keys), vec![3, 1, 0, 2]);
    assert!(less_keys(&vec![1, 9], &vec![2, 0]));
    assert!(!less_keys(&vec![2, 0], &vec![2, 0]));
    assert!(less_bytes(&[1], &[1, 0]));
    assert!(less_bytes(&[1, 255], &[2]));
}

#[test]
fn fingerprints_are_fnv_hashes_with_the_length() {
    let empty = prefix_fingerprint(&vec![]);
    assert_eq!((empty.len, empty.hash), (0, 0xcbf2_9ce4_8422_2325));
    let a = prefix_fingerprint(&b"a".to_vec());
    assert_eq!((a.len, a.hash), (1, 0xaf63_dc4c_8601_ec8c));
    assert_ne!(empty.key(), a.key());
}

#[test]
fn a_fresh_search_knows_nothing() {
    let mut state = SearchState::new(Goal::MinimizeCoverage);
    assert!(state.corpus.is_empty());
    assert!(state.min_path_best.is_none());
    assert_eq!(state.removed_frequency(CoverageId::new(1)), 0);
    assert!(!state.take_refresh());
    state.corpus.push(seed(0, 0, 1));
    state.set_energy(0, 77);
    assert_eq!(state.corpus[0].energy, 77);
    assert_eq!(energy_refresh_interval(Goal::MaximizeCoverage), 64);
    assert_eq!(energy_refresh_interval(Goal::MinimizeCoverage), 1024);
}
