use dowsing::coverage::{CoverageId, CoverageSet};
use dowsing::coverage_guided::{
    CaseEvaluator, CaseFinalizer, CoverageEvaluation, CoverageGuided, Work,
};
use dowsing::parallel::{shard, shards_from, SHARD_SEED_STRIDE};
use dowsing::pipeline::{replay_ops, CheckedCase, FailedCase, Fuzzer, GeneratedCase, Step};
use dowsing::reduce::{
    coverage_delta, emit_deletion_candidates, is_coverage_interesting, reduce,
    reduce_preserving_with_transforms, reduce_with_cost, reduce_with_cost_and_transforms,
    CostModel, NoopSequenceMutator, SequenceMutator, UnitCost,
};

fn set(ids: &[u64]) -> CoverageSet {
    let mut set = CoverageSet::new();
    for id in ids {
        set.insert(CoverageId::new(*id));
    }
    set
}

#[test]
fn a_delta_is_what_the_candidate_has_alone() {
    assert_eq!(coverage_delta(&set(&[1, 2]), &set(&[2, 3])), set(&[3]));
    assert!(is_coverage_interesting(&set(&[1]), &set(&[1]), true));
    assert!(is_coverage_interesting(&set(&[1]), &set(&[2]), false));
    assert!(!is_coverage_interesting(&set(&[1, 2]), &set(&[2]), false));
}

#[test]
fn reduction_keeps_only_what_fails() {
    let ops: Vec<u32> = (0..20).collect();
    let reduced = reduce(ops, &|ops: &Vec<u32>| ops.contains(&3) && ops.contains(&17));
    assert_eq!(reduced, vec![3, 17]);
}

#[test]
fn a_list_that_passes_is_left_alone() {
    let reduced = reduce(vec![1, 2, 3], &|_: &Vec<u32>| false);
    assert_eq!(reduced, vec![1, 2, 3]);
}

struct Sum;

impl CostModel<u64> for Sum {
    fn total_cost(&self, ops: &Vec<u64>) -> u64 {
        ops.iter().sum()
    }
}

#[test]
fn reduction_accepts_only_cheaper_lists() {
    let reduced = reduce_with_cost(vec![0, 5, 0], &Sum, &|ops: &Vec<u64>| ops.contains(&5));
    assert_eq!(reduced, vec![5]);
}

struct Halve;

impl SequenceMutator<u64> for Halve {
    fn mutate(&mut self, ops: &Vec<u64>) -> Vec<Vec<u64>> {
        vec![ops.iter().map(|op| op / 2).collect(), vec![]]
    }
}

#[test]
fn rewrites_are_followed_until_none_helps() {
    let fails = |ops: &Vec<u64>| ops.iter().any(|op| *op >= 3);
    let reduced = reduce_with_cost_and_transforms(vec![1, 100, 1], &Sum, &fails, &mut Halve);
    assert_eq!(reduced, vec![3]);
    let kept = reduce_preserving_with_transforms(
        vec![1, 100, 1],
        &Sum,
        &fails,
        &mut NoopSequenceMutator,
    );
    assert_eq!(kept, vec![100]);
}

#[test]
fn the_predicate_is_asked_only_below_the_given_list() {
    let given = vec![4u64, 0, 7, 1, 9];
    let score = |ops: &Vec<u64>| (ops.iter().sum::<u64>(), ops.len());
    let fails = |ops: &Vec<u64>| {
        assert!(score(ops) < score(&given), "{ops:?}");
        ops.contains(&7)
    };
    assert_eq!(reduce_with_cost(given.clone(), &Sum, &fails), vec![7]);
}

#[test]
fn rewrites_do_no_harm_and_preserving_reduces_alike() {
    let fails = |ops: &Vec<u64>| ops.iter().any(|op| *op >= 3) && ops.len() < 4;
    let score = |ops: &Vec<u64>| (ops.iter().sum::<u64>(), ops.len());
    for given in [vec![1, 100, 1], vec![3, 3, 3], vec![50, 2, 8], vec![]] {
        let plain = reduce_with_cost(given.clone(), &Sum, &fails);
        let reduced = reduce_with_cost_and_transforms(given.clone(), &Sum, &fails, &mut Halve);
        assert!(score(&reduced) <= score(&plain));
        let preserved =
            reduce_preserving_with_transforms(given.clone(), &Sum, &fails, &mut Halve);
        assert_eq!(preserved, reduced);
        let without = reduce_with_cost_and_transforms(
            given.clone(),
            &Sum,
            &fails,
            &mut NoopSequenceMutator,
        );
        assert_eq!(without, plain);
        let again = reduce_with_cost_and_transforms(reduced.clone(), &Sum, &fails, &mut Halve);
        assert_eq!(again, reduced);
    }
}

#[test]
fn deletions_come_in_ever_shorter_runs() {
    assert_eq!(
        emit_deletion_candidates(&vec!['a', 'b', 'c']),
        vec![vec!['c'], vec!['b', 'c'], vec!['a', 'c'], vec!['a', 'b']]
    );
    assert_eq!(emit_deletion_candidates(&vec!['a']), vec![Vec::<char>::new()]);
    assert!(emit_deletion_candidates::<char>(&vec![]).is_empty());
}

#[test]
fn sequences_count_their_seeds_up() {
    let mut cases = Fuzzer::sequences(()).base_seed(u64::MAX).seeds(2).steps(3).into_cases();
    assert_eq!(cases.remaining(), 2);
    let first = cases.next().expect("first case");
    assert_eq!((first.seed(), first.steps()), (u64::MAX, 3));
    assert_eq!(cases.next().expect("second case").seed(), 0);
    assert!(cases.next().is_none());
    assert_eq!(cases.remaining(), 0);
}

#[test]
fn the_defaults_of_sequences() {
    let mut cases = Fuzzer::sequences(()).into_cases();
    assert_eq!(cases.remaining(), 64);
    let first = cases.next().expect("first case");
    assert_eq!((first.seed(), first.steps()), (0, 256));
}

fn limited(total: u64, step: Step<u64>) -> Result<u64, String> {
    let next = total + *step.op();
    if next > 10 {
        return Err(format!("step {}", step.index()));
    }
    Ok(next)
}

#[test]
fn a_replay_stops_at_the_first_error() {
    assert_eq!(replay_ops(&vec![4, 4], 0, &limited), Ok(()));
    assert_eq!(replay_ops(&vec![4, 7, 100], 0, &limited), Err("step 1".to_string()));
}

#[test]
fn failures_are_minimized_by_replays() {
    let case = GeneratedCase { seed: 9, steps: 3, distribution: () };
    let checked = CheckedCase { case, outcome: Err("too much".to_string()) };
    assert!(checked.is_failure());
    assert_eq!(checked.case().seed(), 9);
    let failed: FailedCase<u64> = checked.into_failure(vec![1, 11, 2]).expect("a failure");
    assert_eq!(failed.error(), "too much");
    let replay = |ops: &Vec<u64>| replay_ops(ops, 0, &limited).err();
    let copy = failed.ops().clone();
    let minimized = failed.minimize(copy, &UnitCost, &replay).expect("still fails");
    assert_eq!(minimized.seed(), 9);
    assert_eq!(minimized.ops(), &vec![1, 11, 2]);
    assert_eq!(minimized.minimized_ops(), &vec![11]);
    assert_eq!(minimized.minimized_error(), "step 0");
}

#[test]
fn failures_are_minimized_by_rewrites() {
    let failed =
        FailedCase { seed: 1, ops: vec![1u64, 44, 1], error: "too much".to_string() };
    let replay = |ops: &Vec<u64>| replay_ops(ops, 0, &limited).err();
    let minimized = failed
        .minimize_with_transforms(vec![1, 44, 1], &Sum, &replay, &mut Halve)
        .expect("still fails");
    assert_eq!(minimized.minimized_ops(), &vec![11]);
}

#[test]
fn what_does_not_fail_again_is_not_minimized() {
    let failed = FailedCase { seed: 1, ops: vec![1u64], error: "once".to_string() };
    assert!(failed.minimize(vec![1], &UnitCost, &|_: &Vec<u64>| None).is_none());
    let passed: CheckedCase<()> = CheckedCase {
        case: GeneratedCase { seed: 0, steps: 0, distribution: () },
        outcome: Ok(()),
    };
    assert!(passed.into_failure::<u64>(vec![]).is_none());
}

#[test]
fn shards_have_seeds_of_their_own() {
    let shards = shards_from(7, 3, 100);
    assert_eq!(shards.len(), 3);
    assert_eq!(shards[0].seed(), 7);
    assert_eq!(shards[1].seed(), 7u64.wrapping_add(SHARD_SEED_STRIDE));
    assert_eq!(shards[2].seed(), 7u64.wrapping_add(SHARD_SEED_STRIDE.wrapping_mul(2)));
    assert_eq!((shards[2].index(), shards[2].cases()), (2, 100));
    assert_eq!(shards_from(7, 0, 5), vec![shard(7, 0, 5)]);
}

struct Numbers {
    runs: usize,
}

impl CaseEvaluator<u64> for Numbers {
    fn evaluate(&mut self, ops: &Vec<u64>) -> CoverageEvaluation {
        self.runs += 1;
        let outcome =
            if ops.contains(&13) { Err("unlucky".to_string()) } else { Ok(()) };
        CoverageEvaluation::from_outcome(outcome, set(ops))
    }
}

struct Sorted;

impl CaseFinalizer<u64> for Sorted {
    fn finalize(&mut self, mut ops: Vec<u64>) -> Vec<u64> {
        ops.sort_unstable();
        ops
    }
}

struct Increment;

impl SequenceMutator<u64> for Increment {
    fn mutate(&mut self, ops: &Vec<u64>) -> Vec<Vec<u64>> {
        (1..4).map(|by| ops.iter().map(|op| op + by).collect()).collect()
    }
}

#[test]
fn an_exploration_keeps_what_is_new_and_makes_it_smaller() {
    let mut guided = CoverageGuided::new(Numbers { runs: 0 })
        .finalize(Sorted)
        .initial_cases(vec![vec![2, 1, 1], vec![1]]);
    let Work::Run(case) = guided.next_work() else { panic!("the case that was handed in") };
    assert_eq!(case.ops, vec![1, 1, 2]);
    assert_eq!(guided.run(case), Some(0));
    assert_eq!(guided.corpus()[0].ops, vec![1, 2]);
    assert_eq!(guided.corpus()[0].unique_coverage, set(&[1, 2]));
    let Work::Run(case) = guided.next_work() else { panic!("the other case") };
    assert_eq!(guided.run(case), None);
    assert_eq!(guided.global_coverage(), &set(&[1, 2]));
    let stats = guided.stats();
    assert_eq!((stats.generated, stats.accepted, stats.failures), (2, 1, 0));
    assert_eq!(stats.executed, guided.evaluate.runs as u64);
    assert!(matches!(guided.next_work(), Work::Seed));
}

#[test]
fn an_exploration_runs_the_rewrites_of_failures_first() {
    let mut guided = CoverageGuided::new(Numbers { runs: 0 })
        .mutate(Increment)
        .mutations_per_entry(2)
        .rounds(1)
        .seed_interval(0);
    let passing = guided.offer_seed(Some((5, vec![1]))).expect("a fresh case");
    assert_eq!(passing.seed, Some(5));
    guided.run(passing);
    let failing = guided.offer_seed(Some((6, vec![13]))).expect("a fresh case");
    guided.run(failing);
    assert_eq!(guided.stats().failures, 1);
    assert_eq!(guided.stats().mutated, 4);
    let Work::Run(case) = guided.next_work() else { panic!("a rewrite") };
    assert_eq!((case.ops, case.parent, case.depth), (vec![14], Some(1), 1));
    let Work::Run(case) = guided.next_work() else { panic!("a rewrite") };
    assert_eq!(case.ops, vec![15]);
    let Work::Run(case) = guided.next_work() else { panic!("a rewrite") };
    assert_eq!((case.ops, case.parent), (vec![2], Some(0)));
}

#[test]
fn fresh_cases_and_rewrites_take_turns() {
    let mut guided = CoverageGuided::new(Numbers { runs: 0 })
        .mutate(Increment)
        .mutations_per_entry(2)
        .rounds(2);
    let fresh = guided.offer_seed(Some((1, vec![1]))).expect("a fresh case");
    guided.run(fresh);
    let Work::Run(case) = guided.next_work() else { panic!("a rewrite") };
    assert_eq!(case.ops, vec![2]);
    assert!(matches!(guided.next_work(), Work::Seed));
    let case = guided.offer_seed(None).expect("a rewrite");
    assert_eq!(case.ops, vec![3]);
    assert!(guided.offer_seed(None).is_none());
}

#[test]
fn energy_and_priority_have_exact_values() {
    let mut guided =
        CoverageGuided::new(Numbers { runs: 0 }).mutations_per_entry(10).rounds(3);
    let fresh = guided.offer_seed(Some((1, vec![1, 2]))).expect("a fresh case");
    guided.run(fresh);
    let case = &guided.corpus()[0];
    assert_eq!(guided.state.mutation_energy(case), 4);
    assert_eq!(guided.state.mutation_priority(case), 1 + 2 * 4096 + 2 * 1024);
}

fn in_order(guided: &CoverageGuided<u64, Numbers, UnitCost, Increment, NoopSequenceMutator, Sorted>) {
    let stats = guided.stats();
    let corpus = guided.corpus();
    assert_eq!(stats.accepted, corpus.len() as u64);
    assert_eq!(stats.coverage_ids, guided.global_coverage().len() as u64);
    assert_eq!(stats.failures, corpus.iter().filter(|case| case.is_failure()).count() as u64);
    assert!(stats.executed >= stats.generated && stats.executed >= stats.accepted);
    assert!(stats.mutated <= 2 * stats.accepted);
    for (place, case) in corpus.iter().enumerate() {
        assert_eq!(case.id, place as u64);
        assert!(case.ops.windows(2).all(|pair| pair[0] <= pair[1]));
        assert!(case.depth <= 2);
        assert_eq!(case.parent.is_none(), case.depth == 0);
        if let Some(parent) = case.parent {
            assert!(parent < case.id);
            assert_eq!(case.seed, None);
            assert_eq!(case.depth, corpus[parent as usize].depth + 1);
            assert!(corpus.iter().filter(|other| other.parent == Some(parent)).count() <= 2);
        }
    }
}

#[test]
fn an_exploration_stays_in_order() {
    let mut guided = CoverageGuided::new(Numbers { runs: 0 })
        .mutate(Increment)
        .finalize(Sorted)
        .mutations_per_entry(2)
        .rounds(2)
        .initial_cases(vec![vec![9, 4]]);
    let mut seeds = vec![(1, vec![1, 7]), (2, vec![13, 2]), (3, vec![1])].into_iter();
    loop {
        in_order(&guided);
        let before = guided.stats();
        let case = match guided.next_work() {
            Work::Run(case) => Some(case),
            Work::Seed => guided.offer_seed(seeds.next()),
        };
        let Some(case) = case else {
            assert_eq!(guided.stats(), before);
            break;
        };
        guided.run(case);
        let after = guided.stats();
        assert!(before.generated <= after.generated && before.executed < after.executed);
        assert!(before.accepted <= after.accepted && before.mutated <= after.mutated);
    }
    assert_eq!(guided.stats().generated, 4);
    assert!(guided.corpus().iter().any(|case| case.depth == 2));
    assert!(guided.state.seeds_exhausted && guided.state.pending.is_empty());
}

#[test]
fn without_rounds_nothing_is_rewritten() {
    for (rounds, mutations) in [(0, 5), (5, 0)] {
        let mut guided = CoverageGuided::new(Numbers { runs: 0 })
            .mutate(Increment)
            .mutations_per_entry(mutations)
            .rounds(rounds);
        let fresh = guided.offer_seed(Some((1, vec![1, 2]))).expect("a fresh case");
        assert_eq!(guided.run(fresh), Some(0));
        assert_eq!(guided.stats().mutated, 0);
        assert!(guided.offer_seed(None).is_none());
    }
}
