use dowsing::havoc::{choose_weighted_mutation, selection_weight};
use dowsing::mutate::{
    drawn_index, havoc_word_targets, minimizing_havoc_mutations, WeightedMutation,
};
use dowsing::mutation::{ByteMutation, KeptItem, MutationKind};
use dowsing::trace::{ByteAffinity, Trace, TraceEvent, TraceNode};
use dowsing::weights::Weights;
use rand::rngs::SmallRng;
use rand::{Rng, SeedableRng};

fn range_trace(len: u32, bytes: &[u8]) -> Trace {
    Trace {
        seed: 0,
        root: TraceNode {
            events: vec![TraceEvent::Range {
                length: len.to_le_bytes().to_vec(),
                children: bytes.iter().copied().map(draw_node).collect(),
            }],
        },
        flat: Some(vec![255]),
        zero_tail: false,
    }
}

fn draw_node(byte: u8) -> TraceNode {
    TraceNode {
        events: vec![TraceEvent::Draw { bytes: vec![byte], affinity: ByteAffinity::Any }],
    }
}

fn assert_range_children(trace: &Trace, len: u32, bytes: &[u8]) {
    let Some(TraceEvent::Range { length, children }) = trace.root.events.first() else {
        panic!("expected root range");
    };
    assert_eq!(length, &len.to_le_bytes());
    assert_eq!(children.len(), bytes.len());
    for (child, byte) in children.iter().zip(bytes) {
        assert_eq!(
            child.events,
            [TraceEvent::Draw { bytes: vec![*byte], affinity: ByteAffinity::Any }]
        );
    }
}

#[test]
fn tree_delete_sequence_items_updates_length_and_children() {
    let mut trace = range_trace(3, &[10, 20, 30]);
    let mutation = ByteMutation::DeleteSequenceItems {
        length_start: 0,
        length_width: 4,
        target_len: 0,
        start: 4,
        len: 3,
    };

    assert!(mutation.apply_tree(&mut trace));
    assert_eq!(trace.flat, None);
    assert_eq!(trace.flatten_prefix(), 0_u32.to_le_bytes());
    assert_range_children(&trace, 0, &[]);
}

#[test]
fn tree_project_sequence_items_keeps_non_contiguous_children() {
    let mut trace = range_trace(4, &[10, 20, 30, 40]);
    let mutation = ByteMutation::ProjectSequenceItems {
        length_start: 0,
        length_width: 4,
        target_len: 2,
        replace_start: 4,
        replace_len: 4,
        items: vec![KeptItem { start: 4, len: 1 }, KeptItem { start: 6, len: 1 }],
    };

    assert!(mutation.apply_tree(&mut trace));
    let mut expected = 2_u32.to_le_bytes().to_vec();
    expected.extend([10, 30]);
    assert_eq!(trace.flatten_prefix(), expected);
    assert_range_children(&trace, 2, &[10, 30]);
}

#[test]
fn tree_project_sequence_items_can_clone_prior_children() {
    let mut trace = range_trace(3, &[1, 99, 30]);
    let mutation = ByteMutation::ProjectSequenceItems {
        length_start: 0,
        length_width: 4,
        target_len: 3,
        replace_start: 4,
        replace_len: 3,
        items: vec![
            KeptItem { start: 4, len: 1 },
            KeptItem { start: 4, len: 1 },
            KeptItem { start: 6, len: 1 },
        ],
    };

    assert!(mutation.apply_tree(&mut trace));
    let mut expected = 3_u32.to_le_bytes().to_vec();
    expected.extend([1, 1, 30]);
    assert_eq!(trace.flatten_prefix(), expected);
    assert_range_children(&trace, 3, &[1, 1, 30]);
}

#[test]
fn tree_mutation_can_target_nested_ranges() {
    let mut trace = Trace {
        seed: 0,
        root: TraceNode {
            events: vec![TraceEvent::Range {
                length: 1_u32.to_le_bytes().to_vec(),
                children: vec![TraceNode {
                    events: vec![TraceEvent::Range {
                        length: 3_u32.to_le_bytes().to_vec(),
                        children: [10, 20, 30].into_iter().map(draw_node).collect(),
                    }],
                }],
            }],
        },
        flat: None,
        zero_tail: false,
    };
    let mutation = ByteMutation::DeleteSequenceItems {
        length_start: 4,
        length_width: 4,
        target_len: 0,
        start: 8,
        len: 3,
    };

    assert!(mutation.apply_tree(&mut trace));
    let mut expected = 1_u32.to_le_bytes().to_vec();
    expected.extend(0_u32.to_le_bytes());
    assert_eq!(trace.flatten_prefix(), expected);
}

#[test]
fn weighted_mutation_selection_favors_boosted_concrete_mutator() {
    let mut weights = Weights::new();
    weights.set_kind(MutationKind::SetByte, 16_000_000);
    weights.set_kind(MutationKind::InsertBytes, 100_000);

    let mut rng = SmallRng::seed_from_u64(1);
    let mut set_byte = 0;
    for _ in 0..64 {
        let mutations = vec![
            WeightedMutation {
                baseline: 1_000_000,
                mutator: ByteMutation::InsertBytes { index: 0, bytes: vec![1] },
            },
            WeightedMutation {
                baseline: 1_000_000,
                mutator: ByteMutation::SetByte { index: 0, value: 0 },
            },
        ];
        let total: u128 =
            mutations.iter().map(|mutation| selection_weight(&weights, mutation)).sum();
        let target = rng.random_range(0..total);
        let index = choose_weighted_mutation(&mutations, &weights, target);
        set_byte += usize::from(mutations[index].mutator.kind() == MutationKind::SetByte);
    }

    assert!(set_byte >= 60, "set_byte selected {set_byte} times");
}

#[test]
fn dictionary_mutation_can_insert_comparison_constants() {
    let mut prefix = vec![1, 2, 3];
    let dictionary = vec![vec![0x13, 0x37]];
    let mut rng = SmallRng::seed_from_u64(1);
    let index = rng.random_range(0..=prefix.len());
    let mutation = ByteMutation::InsertBytes { index, bytes: dictionary[0].clone() };
    assert!(mutation.apply_bytes(&mut prefix, &dictionary));

    assert!(prefix.windows(2).any(|window| window == [0x13, 0x37]));
}

fn applied(mutation: ByteMutation, bytes: &[u8]) -> (bool, Vec<u8>) {
    let mut prefix = bytes.to_vec();
    let changed = mutation.apply_bytes(&mut prefix, &vec![vec![8, 9]]);
    (changed, prefix)
}

#[test]
fn single_bytes_are_rewritten_in_place() {
    let bytes = [1, 2, 3];
    assert_eq!(
        applied(ByteMutation::SetByte { index: 1, value: 9 }, &bytes),
        (true, vec![1, 9, 3])
    );
    assert_eq!(applied(ByteMutation::XorBit { index: 0, bit: 3 }, &bytes).1, vec![9, 2, 3]);
    assert_eq!(
        applied(ByteMutation::AddByte { index: 2, amount: 254 }, &bytes).1,
        vec![1, 2, 1]
    );
    assert_eq!(
        applied(ByteMutation::SubByte { index: 0, amount: 2 }, &bytes).1,
        vec![255, 2, 3]
    );
}

#[test]
fn runs_of_bytes_are_inserted_deleted_and_zeroed() {
    let bytes = [1, 2, 3, 4];
    assert_eq!(
        applied(ByteMutation::InsertBytes { index: 1, bytes: vec![7, 7] }, &bytes).1,
        vec![1, 7, 7, 2, 3, 4]
    );
    assert_eq!(applied(ByteMutation::ZeroRange { start: 1, len: 2 }, &bytes).1, vec![1, 0, 0, 4]);
    assert_eq!(applied(ByteMutation::Truncate { len: 2, leading_sub: None }, &bytes).1, vec![1, 2]);
    assert_eq!(applied(ByteMutation::ZeroRepeated { value: 3 }, &[3, 1, 3]).1, vec![0, 1, 0]);
}

#[test]
fn draws_lead_to_the_first_index_or_the_least() {
    assert_eq!(drawn_index(true, 5, 6, 7), 0);
    assert_eq!(drawn_index(false, 5, 6, 7), 5);
    assert_eq!(drawn_index(false, 5, 3, 7), 3);
    assert_eq!(drawn_index(false, 5, 6, 2), 2);
}

#[test]
fn words_are_lowered_to_their_targets() {
    let mut rng = SmallRng::seed_from_u64(7);
    let targets = havoc_word_targets(0x0302, 2);
    for _ in 0..64 {
        let proposals = minimizing_havoc_mutations(&vec![2, 3], &mut rng, &Vec::new());
        match &proposals[16].mutator {
            ByteMutation::SetWord { start: 0, width: 2, word, zero_until: None } => {
                assert!(targets.contains(word));
            }
            other => panic!("{other:?}"),
        }
        let proposals = minimizing_havoc_mutations(&vec![0, 0], &mut rng, &Vec::new());
        match &proposals[16].mutator {
            ByteMutation::SetByte { index, value: 0 } => assert!(*index < 2),
            other => panic!("{other:?}"),
        }
    }
}
