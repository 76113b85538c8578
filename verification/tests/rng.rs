use dowsing::candidate::CandidateOrigin;
use dowsing::execution::{DetachedExecution, DrawKind, SemanticKind};
use dowsing::rng::{BoundaryKind, CaseRng, Edge, StreamSpec};
use dowsing::score::CaseCost;
use dowsing::trace::Trace;

fn running(case: &Trace) -> CaseRng<()> {
    CaseRng::new(case, CandidateOrigin::SeededCase, Some(()))
}

fn of_bytes(bytes: &[u8]) -> CaseRng<()> {
    running(&Trace::from_raw_parts(7, bytes.to_vec(), true))
}

#[test]
fn the_prefix_comes_first_and_zeros_follow() {
    let mut rng = of_bytes(&[1, 2, 3, 4, 5]);
    assert_eq!(rng.seed(), 7);
    assert_eq!(rng.next_u32(), 0x0403_0201);
    assert_eq!(rng.next_u64(), 5);
    assert_eq!(rng.fill_bytes(3), vec![0, 0, 0]);
    assert_eq!(rng.snapshot_cursor(), 15);
}

#[test]
fn a_seed_gives_the_same_bytes_again() {
    let case = Trace::empty(42);
    let first = running(&case).fill_bytes(64);
    let second = running(&case).fill_bytes(64);
    let other = running(&Trace::empty(43)).fill_bytes(64);
    assert_eq!(first, second);
    assert_ne!(first, other);
    assert!(first.iter().any(|byte| *byte != 0));
}

#[test]
fn a_forked_case_replays_what_was_drawn() {
    let mut rng = running(&Trace::empty(42));
    let drawn = rng.fill_bytes(9);
    let mut replay = running(&rng.fork_case());
    assert_eq!(replay.fill_bytes(9), drawn);
    let mut ended = of_bytes(&[1, 2]);
    ended.fill_bytes(3);
    let mut replay = running(&ended.fork_case());
    assert_eq!(replay.fill_bytes(5), vec![1, 2, 0, 0, 0]);
}

#[test]
fn choices_lie_below_their_bound() {
    let mut rng = of_bytes(&[7, 0, 9, 9, 200, 1, 0, 0, 5, 5, 5, 5]);
    assert_eq!(rng.variant(4), 3);
    assert_eq!(rng.variant(100), 456 % 100);
    assert_eq!(rng.variant(1), 0);
    assert_eq!(rng.snapshot_cursor(), 12);
}

#[test]
fn a_range_has_so_many_children() {
    let mut rng = of_bytes(&[5, 0, 0, 0]);
    let range = rng.range(Edge::Included(2), Edge::Included(4));
    assert_eq!(range.len(), 2 + 5 % 3);
    assert_eq!(range.remaining(), range.len());
    range.close(&mut rng);
    let mut rng = of_bytes(&[9, 0, 0, 0]);
    let range = rng.range(Edge::Excluded(2), Edge::Excluded(4));
    assert_eq!(range.len(), 3);
}

#[test]
fn children_come_once_in_the_given_order() {
    let mut rng = of_bytes(&[3, 0, 0, 0, 10, 11, 12]);
    let mut range = rng.range(Edge::Included(0), Edge::Excluded(8)).reorder(vec![2, 0, 1]);
    let mut seen = Vec::new();
    while let Some(child) = range.next(&rng) {
        seen.push((child.index(), rng.fill_bytes(1)[0]));
        child.close(&mut range, &mut rng);
    }
    assert_eq!(seen, vec![(2, 10), (0, 11), (1, 12)]);
    assert_eq!(range.remaining(), 0);
    range.close(&mut rng);
    let (active, session) = rng.into_active();
    assert_eq!(session, Some(()));
    assert_eq!(active.sequences.len(), 1);
    assert_eq!(active.sequences[0].items.len(), 3);
    assert!(active.semantics.iter().any(|span| span.kind == SemanticKind::Length));
    assert_eq!(active.semantics.iter().filter(|span| span.kind == SemanticKind::Item).count(), 3);
}

#[test]
fn draws_are_recorded_where_they_stand() {
    let mut rng = of_bytes(&[0; 16]);
    rng.next_u32();
    rng.fill_bytes(3);
    let (active, _) = rng.into_active();
    assert_eq!(active.draws.len(), 2);
    assert_eq!((active.draws[0].start, active.draws[0].len), (0, 4));
    assert_eq!(active.draws[0].kind, DrawKind::Word);
    assert_eq!((active.draws[1].start, active.draws[1].len), (4, 3));
    assert_eq!(active.draws[1].kind, DrawKind::Bytes);
}

#[test]
fn boundaries_say_how_far_the_case_is() {
    let mut rng = of_bytes(&[1, 2, 3, 4]);
    rng.next_u32();
    let hint = rng.checkpoint_hint();
    let item = rng.boundary(BoundaryKind::Item);
    assert_eq!((hint.kind, hint.cursor), (BoundaryKind::Hint, 4));
    assert_eq!((item.kind, item.cursor), (BoundaryKind::Item, 4));
}

#[test]
fn a_stream_can_be_installed_over_what_was_drawn() {
    let mut rng = of_bytes(&[1, 2, 3, 4, 5, 6]);
    rng.fill_bytes(2);
    let spec = StreamSpec { seed: 1, prefix: vec![1, 2, 9, 9], zero_tail: true };
    assert_eq!(rng.snapshot_install_stream(spec), Ok(()));
    assert_eq!(rng.fill_bytes(3), vec![9, 9, 0]);
    assert_eq!(rng.snapshot_trace(), &vec![1, 2, 9, 9, 0]);
    let stream = rng.snapshot_stream();
    assert_eq!((stream.prefix, stream.zero_tail), (vec![1, 2, 9, 9], true));
}

#[test]
fn a_stream_that_disagrees_is_refused() {
    let mut rng = of_bytes(&[1, 2, 3]);
    rng.fill_bytes(2);
    let spec = StreamSpec { seed: 1, prefix: vec![1, 7], zero_tail: true };
    assert_eq!(
        rng.snapshot_install_stream(spec),
        Err("stream prefix does not match consumed bytes".to_string())
    );
    assert_eq!(rng.fill_bytes(1), vec![3]);
}

#[test]
fn a_detached_execution_is_a_case_again() {
    let rng = of_bytes(&[1, 2, 3]);
    let execution = DetachedExecution {
        trace: vec![4, 5],
        draws: vec![],
        semantics: vec![],
        sequences: vec![],
        bytes_consumed: 2,
        feedback: None,
        case_cost: CaseCost::zero(),
    };
    let case = rng.snapshot_case(&execution);
    assert_eq!(case.flatten_prefix(), vec![4, 5]);
}
