use dowsing::candidate::CandidateOrigin;
use dowsing::reducer::bytes::{
    block_zero_specs, byte_lower_specs, dictionary_repair_specs, draw_length_specs,
    nonzero_count, repeated_value_specs, replacement_simplifies, tail_trim_specs,
};
use dowsing::reducer::ranking::range_weight;
use dowsing::reducer::sequences::sequence_delete_specs;
use dowsing::reducer::state::CautiousReducer;
use dowsing::reduction::ReductionOperation;
use dowsing::score::CautiousOptions;
use dowsing::targets::{
    block_starts, draw_widths, max_word_value, read_le_word, sequence_keep_sizes, shrink_sizes,
    shrink_sizes_including_full, small_length_targets, smaller_byte_targets, smaller_word_targets,
};
use dowsing::trace::{ByteAffinity, DrawSpan, ItemSpan, ScalarSpan, SequenceSpan, Trace};
use dowsing::weights::{Weights, UNIT_KEY};

fn draw(start: usize, end: usize) -> DrawSpan {
    DrawSpan { start, end, affinity: ByteAffinity::Any }
}

#[test]
fn words_are_little_endian() {
    assert_eq!(read_le_word(&vec![9, 1, 2, 9], 1, 3), 0x0201);
    assert_eq!(max_word_value(1), 255);
    assert_eq!(max_word_value(8), u64::MAX);
}

#[test]
fn targets_are_smaller_than_what_they_replace() {
    for target in smaller_byte_targets(200) {
        assert!(target < 200);
    }
    for target in smaller_word_targets(70_000, 4) {
        assert!(target < 70_000);
    }
    let lengths = small_length_targets(200, 4);
    assert_eq!(&lengths[..4], &[0, 1, 2, 3]);
    assert!(smaller_byte_targets(0).is_empty());
}

#[test]
fn sizes_shrink_by_halves() {
    let sizes = shrink_sizes(16);
    assert!(sizes.contains(&8) && sizes.contains(&1) && !sizes.contains(&16));
    assert_eq!(shrink_sizes_including_full(16)[0], 16);
    assert!(sequence_keep_sizes(4).iter().all(|size| (1..4).contains(size)));
    assert!(block_starts(10, 4).iter().all(|start| *start < 10));
    assert!(draw_widths(4).contains(&4));
}

#[test]
fn families_propose_their_reductions() {
    let prefix = vec![5, 0, 0, 0, 7, 7];
    assert!(!draw_length_specs(&prefix, &vec![draw(0, 4)], 8).is_empty());
    assert_eq!(tail_trim_specs(&prefix)[0].op.len, 6);
    assert!(tail_trim_specs(&vec![]).is_empty());
    assert!(block_zero_specs(&vec![0, 0]).is_empty());
    assert!(!block_zero_specs(&prefix).is_empty());
    assert!(byte_lower_specs(&vec![0]).is_empty());
    assert_eq!(repeated_value_specs(&prefix).len(), 2);
    assert!(!dictionary_repair_specs(&prefix, &vec![vec![0, 7]]).is_empty());
    let sequence = SequenceSpan {
        length_start: 0,
        length_len: 4,
        items: vec![ItemSpan { start: 4, end: 5 }, ItemSpan { start: 5, end: 6 }],
    };
    assert!(!sequence_delete_specs(&prefix, &vec![sequence], 8).is_empty());
}

#[test]
fn pressure_is_summed_over_a_range() {
    assert_eq!(range_weight(&vec![1, 2, 3], 1, 1), 2);
    assert_eq!(nonzero_count(&[0, 3, 0]), 1);
    assert!(replacement_simplifies(&[9, 9], &[0, 9]));
    assert!(!replacement_simplifies(&[0, 9], &[9, 9]));
}

#[test]
fn a_reducer_never_tries_a_path_twice() {
    let prefix = vec![3, 1, 200, 9];
    let case = Trace::from_raw_parts(1, prefix.clone(), true);
    let mut reducer = CautiousReducer::new();
    reducer.reset(0, 1, &case, &prefix, &vec![draw(0, 4)], &vec![], &vec![]);
    let weights = Weights::new();
    let mut seen = vec![prefix];
    for _ in 0..200 {
        let Some(candidate) =
            reducer.next_candidate(&vec![], CautiousOptions::new(), &weights)
        else {
            break;
        };
        let path = candidate.case.flatten_prefix();
        assert!(!seen.contains(&path));
        seen.push(path);
        reducer.record_discard(&candidate.origin, &weights);
        assert!(reducer.range_pressure.iter().all(|pressure| *pressure >= 1));
    }
    assert!(seen.len() > 20);
}

fn tried_families(scalars: &Vec<ScalarSpan>, n: usize) -> Vec<ReductionOperation> {
    let mut prefix = 200_u32.to_le_bytes().to_vec();
    prefix.extend([255; 8]);
    let case = Trace::from_raw_parts(1, prefix.clone(), true);
    let draws = vec![draw(0, 4)];
    let mut reducer = CautiousReducer::new();
    reducer.reset(0, 1, &case, &prefix, &draws, scalars, &vec![]);
    let weights = Weights::new();
    let mut families = Vec::new();
    for _ in 0..n {
        let candidate = reducer
            .next_candidate(&vec![], CautiousOptions::new(), &weights)
            .expect("a reduction");
        reducer.record_discard(&candidate.origin, &weights);
        match candidate.origin {
            CandidateOrigin::CautiousReduction(id) => families.push(id.operation),
            _ => panic!("a reduction"),
        }
    }
    families
}

#[test]
fn lengths_go_before_bytes_only_where_nothing_else_is_known() {
    let plain = tried_families(&vec![], 5);
    assert!(plain.iter().all(|family| family.structure_rank() == 2), "{plain:?}");
    let structured = tried_families(&vec![ScalarSpan { start: 4, end: 8, span: 0 }], 6);
    assert_eq!(structured[0].structure_rank(), 1);
    assert!(structured.iter().any(|family| family.structure_rank() >= 3), "{structured:?}");
}

#[test]
fn weights_are_kept_apart() {
    let mut weights = Weights::new();
    assert_eq!(weights.of_operation(ReductionOperation::TailTrim), UNIT_KEY);
    weights.set_operation(ReductionOperation::TailTrim, 5);
    assert_eq!(weights.of_operation(ReductionOperation::TailTrim), 5);
    assert_eq!(weights.of_operation(ReductionOperation::BlockZero), UNIT_KEY);
    assert_ne!(
        ReductionOperation::TailTrim.index(),
        ReductionOperation::BlockZero.index()
    );
}
