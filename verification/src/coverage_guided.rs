//! Exploring lists of operations by the coverage that they reach.

use crate::coverage::{
    ascending_ids, ascending_ids_are_unique, strictly_ascending, CoverageId, CoverageSet,
};
use crate::exploration::{
    counters_grow, counters_tally, exhausted_seeds_keep_order, is_in_order, is_taken_up, may_run,
    runs_keep_order, runs_keep_the_tally, taken_up_cases_may_run,
};
use crate::reduce::{
    are_deletions, coverage_delta, emit_deletion_candidates, is_coverage_interesting, scores_less,
    turned, CostModel, NoopSequenceMutator, SequenceMutator, UnitCost,
};
use crate::search::frequency::{counted, frequency, no_counts, one_more, Frequencies};
use std::collections::VecDeque;
use vstd::prelude::*;

verus! {

/// So many rewrites are run before another fresh case is tried, unless told otherwise.
pub const DEFAULT_SEED_INTERVAL: usize = 1;

/// So many times a case is made smaller, unless told otherwise.
pub const DEFAULT_SHRINK_STEPS: usize = 64;

/// What came of running a case.
#[derive(Debug)]
pub struct CoverageEvaluation {
    pub outcome: Result<(), String>,
    pub coverage: CoverageSet,
}

impl CoverageEvaluation {
    pub open spec fn failed(self) -> bool {
        self.outcome is Err
    }

    /// An outcome and what was covered on the way.
    pub fn from_outcome(outcome: Result<(), String>, coverage: CoverageSet) -> (evaluation: Self)
        ensures
            evaluation == (CoverageEvaluation { outcome, coverage }),
    {
        CoverageEvaluation { outcome, coverage }
    }

    /// Whether the case failed.
    pub fn is_failure(&self) -> (failure: bool)
        ensures
            failure == self.failed(),
    {
        self.outcome.is_err()
    }
}

/// Runs a case.
pub trait CaseEvaluator<Op> {
    /// The evaluation may come of a run of the operations: any evaluation, unless an evaluator says
    /// which.
    open spec fn comes_of(ops: Seq<Op>, evaluation: CoverageEvaluation) -> bool {
        true
    }

    fn evaluate(&mut self, ops: &Vec<Op>) -> (evaluation: CoverageEvaluation)
        ensures
            Self::comes_of(ops@, evaluation),
    ;
}

/// Brings a case into shape before it is run.
pub trait CaseFinalizer<Op> {
    /// The operations may be brought into this shape: any shape, unless a finalizer says which.
    open spec fn shapes(ops: Seq<Op>, shaped: Seq<Op>) -> bool {
        true
    }

    fn finalize(&mut self, ops: Vec<Op>) -> (shaped: Vec<Op>)
        ensures
            Self::shapes(ops@, shaped@),
    ;
}

/// Leaves a case as it is.
#[derive(Debug, Clone, Copy, PartialEq, Eq, Structural)]
pub struct NoopFinalize;

impl<Op> CaseFinalizer<Op> for NoopFinalize {
    open spec fn shapes(ops: Seq<Op>, shaped: Seq<Op>) -> bool {
        shaped == ops
    }

    fn finalize(&mut self, ops: Vec<Op>) -> (shaped: Vec<Op>) {
        ops
    }
}

/// The counters of an exploration.
#[derive(Debug, Clone, Copy, PartialEq, Eq, Structural)]
pub struct ExplorationStats {
    /// Cases that were not made from others.
    pub generated: u64,
    /// Cases that were run.
    pub executed: u64,
    /// Cases that were kept.
    pub accepted: u64,
    /// Cases that were kept and failed.
    pub failures: u64,
    /// Identifiers that were covered.
    pub coverage_ids: u64,
    /// Cases that were made from others.
    pub mutated: u64,
}

/// A case that is kept.
pub struct CoveredCase<Op> {
    pub id: u64,
    pub seed: Option<u64>,
    pub parent: Option<u64>,
    pub depth: usize,
    pub ops: Vec<Op>,
    pub coverage: CoverageSet,
    pub unique_coverage: CoverageSet,
    pub outcome: Result<(), String>,
    pub cost: u64,
    pub len: usize,
}

impl<Op> CoveredCase<Op> {
    /// Whether the case failed.
    pub fn is_failure(&self) -> (failure: bool)
        ensures
            failure == self.outcome is Err,
    {
        self.outcome.is_err()
    }
}

/// A case that is to be run.
pub struct PendingCoverageCase<Op> {
    pub ops: Vec<Op>,
    pub seed: Option<u64>,
    pub parent: Option<u64>,
    pub depth: usize,
    pub priority: u64,
    pub order: u64,
}

/// What is to be done next.
pub enum Work<Op> {
    /// Run this case.
    Run(PendingCoverageCase<Op>),
    /// Offer a fresh case, or say that there is none.
    Seed,
}

/// An exploration.
pub struct CoverageGuided<Op, Evaluate, Cost, Mutate, Shrink, Finalize> {
    pub evaluate: Evaluate,
    pub cost: Cost,
    pub mutate: Mutate,
    pub shrink: Shrink,
    pub finalize: Finalize,
    pub state: Exploration<Op>,
}

/// What an exploration knows.
pub struct Exploration<Op> {
    pub global: CoverageSet,
    pub coverage_frequency: Frequencies,
    pub corpus: Vec<CoveredCase<Op>>,
    pub initial_cases: VecDeque<Vec<Op>>,
    pub pending: Vec<PendingCoverageCase<Op>>,
    pub stats: ExplorationStats,
    pub mutations_per_entry: usize,
    pub mutation_rounds: usize,
    pub max_shrink_steps: usize,
    pub seed_interval: usize,
    pub mutated_since_seed: usize,
    pub seeds_exhausted: bool,
    pub next_id: u64,
    pub next_pending_order: u64,
}

/// `a` is run after `b`: its priority is lower, or it is the same and `a` came later.
pub open spec fn runs_later<Op>(a: PendingCoverageCase<Op>, b: PendingCoverageCase<Op>) -> bool {
    a.priority < b.priority || (a.priority == b.priority && a.order > b.order)
}

/// The place of the case that is run next, the last of several.
pub open spec fn scheduled_place<Op>(pending: Seq<PendingCoverageCase<Op>>) -> int
    decreases pending.len(),
{
    if pending.len() <= 1 {
        0
    } else {
        let place = scheduled_place(pending.drop_last());
        if runs_later(pending.last(), pending[place]) {
            place
        } else {
            pending.len() - 1
        }
    }
}

/// No case is run before the one that is scheduled, were all of them run by priority.
pub proof fn scheduled_comes_first<Op>(pending: Seq<PendingCoverageCase<Op>>)
    requires
        pending.len() > 0,
    ensures
        0 <= scheduled_place(pending) < pending.len(),
        forall|i: int|
            0 <= i < pending.len() ==> !runs_later(
                pending[scheduled_place(pending)],
                #[trigger] pending[i],
            ),
    decreases pending.len(),
{
    if pending.len() > 1 {
        let fewer = pending.drop_last();
        scheduled_comes_first(fewer);
        let place = scheduled_place(fewer);
        assert(fewer[place] == pending[place]);
        assert forall|i: int| 0 <= i < pending.len() implies !runs_later(
            pending[scheduled_place(pending)],
            #[trigger] pending[i],
        ) by {
            if i < fewer.len() {
                assert(fewer[i] == pending[i]);
            }
        }
    }
}

/// Whether a fresh case is asked for before a rewrite is run.
pub open spec fn seed_is_due<Op>(state: Exploration<Op>) -> bool {
    !state.seeds_exhausted && (state.pending@.len() == 0 || (state.seed_interval > 0
        && state.mutated_since_seed >= state.seed_interval))
}

/// How many identifiers of the case were covered by no other one.
pub open spec fn rare_count(counts: Map<u64, u64>, ids: Seq<CoverageId>) -> int
    decreases ids.len(),
{
    if ids.len() == 0 {
        0
    } else {
        rare_count(counts, ids.drop_last()) + if frequency(counts, ids.last()) <= 1 {
            1int
        } else {
            0int
        }
    }
}

/// How many rewrites a case is worth.
pub open spec fn energy_of<Op>(state: Exploration<Op>, case: CoveredCase<Op>) -> int {
    let limit = state.mutations_per_entry as int;
    let unique = case.unique_coverage@.len() as int;
    let base = 1 + if unique <= limit - 1 {
        unique
    } else {
        limit - 1
    };
    if limit == 0 || case.depth >= state.mutation_rounds {
        0
    } else if rare_count(state.coverage_frequency@, ascending_ids(case.coverage@)) > 0 && base
        < limit {
        base + 1
    } else {
        base
    }
}

/// A case is worth no more rewrites than are allowed.
pub proof fn energy_is_bounded<Op>(state: Exploration<Op>, case: CoveredCase<Op>)
    ensures
        0 <= energy_of(state, case) <= state.mutations_per_entry,
{
}

/// How rare an identifier is.
pub open spec fn rarity(counts: Map<u64, u64>, id: CoverageId) -> int {
    let hits = if frequency(counts, id) < 1 {
        1
    } else if frequency(counts, id) > 1024 {
        1024
    } else {
        frequency(counts, id) as int
    };
    1024int / hits
}

/// How rare the identifiers are together.
pub open spec fn rarity_sum(counts: Map<u64, u64>, ids: Seq<CoverageId>) -> int
    decreases ids.len(),
{
    if ids.len() == 0 {
        0
    } else {
        rarity_sum(counts, ids.drop_last()) + rarity(counts, ids.last())
    }
}

/// What the size of a case takes off its priority.
pub open spec fn size_penalty(cost: u64, len: usize) -> int {
    if cost / 16 + len / 8 < 8192 {
        cost / 16 + len / 8
    } else {
        8192
    }
}

/// How soon the rewrites of a case are run.
pub open spec fn priority_of<Op>(state: Exploration<Op>, case: CoveredCase<Op>) -> int {
    let rare = rarity_sum(state.coverage_frequency@, ascending_ids(case.coverage@));
    let penalty = size_penalty(case.cost, case.len) + case.depth * 256;
    1 + (if case.outcome is Err {
        0x4000_0000int
    } else {
        0
    }) + case.unique_coverage@.len() * 4096 + if rare > penalty {
        rare - penalty
    } else {
        0
    }
}

/// A priority in 64 bits.
pub open spec fn capped(priority: int) -> u64 {
    if priority <= u64::MAX {
        priority as u64
    } else {
        u64::MAX
    }
}

/// A failing case goes before a passing one that covers as much on its own and is not more than
/// twenty bits rarer.
pub proof fn failures_go_first<Op>(
    state: Exploration<Op>,
    failing: CoveredCase<Op>,
    passing: CoveredCase<Op>,
)
    requires
        failing.outcome is Err,
        passing.outcome is Ok,
        failing.unique_coverage@.len() == passing.unique_coverage@.len(),
        rarity_sum(state.coverage_frequency@, ascending_ids(passing.coverage@)) < 0x4000_0000,
    ensures
        priority_of(state, failing) > priority_of(state, passing),
{
    assert(size_penalty(passing.cost, passing.len) >= 0);
}

/// A case that was not made from another one.
pub open spec fn is_root<Op>(case: PendingCoverageCase<Op>, seed: Option<u64>) -> bool {
    case.seed == seed && case.parent is None && case.depth == 0 && case.priority == u64::MAX
        && case.order == 0
}

/// A fresh case was taken up.
pub open spec fn root_taken<Op>(before: Exploration<Op>, after: Exploration<Op>) -> bool {
    &&& after.stats == (ExplorationStats {
        generated: one_more(before.stats.generated),
        ..before.stats
    })
    &&& after.mutated_since_seed == 0
}

/// Nothing but what is to be run, and the counters, may differ.
pub open spec fn same_knowledge<Op>(before: Exploration<Op>, after: Exploration<Op>) -> bool {
    &&& after.global == before.global
    &&& after.coverage_frequency == before.coverage_frequency
    &&& after.corpus == before.corpus
    &&& after.mutations_per_entry == before.mutations_per_entry
    &&& after.mutation_rounds == before.mutation_rounds
    &&& after.max_shrink_steps == before.max_shrink_steps
    &&& after.seed_interval == before.seed_interval
    &&& after.next_id == before.next_id
    &&& after.next_pending_order == before.next_pending_order
}

/// The case that is scheduled was taken up.
pub open spec fn scheduled_taken<Op>(
    before: Exploration<Op>,
    after: Exploration<Op>,
    case: PendingCoverageCase<Op>,
) -> bool {
    &&& before.pending@.len() > 0
    &&& case == before.pending@[scheduled_place(before.pending@)]
    &&& after.pending@ == before.pending@.remove(scheduled_place(before.pending@))
    &&& after.stats == before.stats
    &&& after.initial_cases == before.initial_cases
    &&& after.mutated_since_seed == if before.mutated_since_seed < usize::MAX {
        (before.mutated_since_seed + 1) as usize
    } else {
        usize::MAX
    }
}

/// A case was kept: it has a number of its own; it fails or covers something new; and what it
/// covers is known from now on.
pub open spec fn kept<Op, Cost: CostModel<Op>>(
    before: Exploration<Op>,
    after: Exploration<Op>,
    case: CoveredCase<Op>,
    cost: Cost,
) -> bool {
    &&& case.id == before.next_id
    &&& case.unique_coverage@ == case.coverage@.difference(before.global@)
    &&& case.outcome is Err || !case.coverage@.subset_of(before.global@)
    &&& case.cost == cost.cost(case.ops@)
    &&& case.len == case.ops@.len()
    &&& after.corpus@ == before.corpus@.push(case)
    &&& after.global@ == before.global@.union(case.coverage@)
    &&& after.coverage_frequency@ == counted(
        before.coverage_frequency@,
        ascending_ids(case.coverage@),
    )
    &&& after.next_id == ((before.next_id + 1) % 0x1_0000_0000_0000_0000) as u64
    &&& after.stats.accepted == one_more(before.stats.accepted)
    &&& after.stats.failures == if case.outcome is Err {
        one_more(before.stats.failures)
    } else {
        before.stats.failures
    }
    &&& after.stats.coverage_ids == after.global@.len()
    &&& after.stats.generated == before.stats.generated
}

/// A number after `n` more, in 64 bits.
pub open spec fn wrapped(number: u64, n: int) -> u64 {
    ((number + n) % 0x1_0000_0000_0000_0000) as u64
}

/// A counter after `n` more.
pub open spec fn counted_up(count: u64, n: int) -> u64 {
    if count + n <= u64::MAX {
        (count + n) as u64
    } else {
        u64::MAX
    }
}

/// How many of the lists are queued.
pub open spec fn queued_count<Op>(state: Exploration<Op>, case: CoveredCase<Op>, lists: int) -> int {
    if lists <= energy_of(state, case) {
        lists
    } else {
        energy_of(state, case)
    }
}

/// The case that waits is the list at place `i` in shape, made from `case`.
pub open spec fn is_queued<Op, Finalize: CaseFinalizer<Op>>(
    state: Exploration<Op>,
    case: CoveredCase<Op>,
    list: Vec<Op>,
    i: int,
    waiting: PendingCoverageCase<Op>,
) -> bool {
    &&& Finalize::shapes(list@, waiting.ops@)
    &&& waiting.seed is None
    &&& waiting.parent == Some(case.id)
    &&& waiting.depth == case.depth + 1
    &&& waiting.priority == capped(priority_of(state, case))
    &&& waiting.order == wrapped(state.next_pending_order, i)
}

/// The first of the lists, as many as the case is worth, wait behind the cases that waited before.
pub open spec fn lists_wait<Op, Finalize: CaseFinalizer<Op>>(
    before: Exploration<Op>,
    after: Exploration<Op>,
    case: CoveredCase<Op>,
    lists: Seq<Vec<Op>>,
) -> bool {
    let n = queued_count(before, case, lists.len() as int);
    &&& after.pending@.len() == before.pending@.len() + n
    &&& after.pending@.take(before.pending@.len() as int) == before.pending@
    &&& forall|i: int|
        0 <= i < n ==> is_queued::<Op, Finalize>(
            before,
            case,
            #[trigger] lists[i],
            i,
            after.pending@[before.pending@.len() + i],
        )
    &&& after.next_pending_order == wrapped(before.next_pending_order, n)
    &&& after.stats.mutated == counted_up(before.stats.mutated, n)
}

/// The rewrites of a case that was kept wait; there are none if it is worth none.
pub open spec fn rewrites_wait<Op, Mutate: SequenceMutator<Op>, Finalize: CaseFinalizer<Op>>(
    before: Exploration<Op>,
    after: Exploration<Op>,
    case: CoveredCase<Op>,
) -> bool {
    if energy_of(before, case) == 0 {
        &&& after.pending == before.pending
        &&& after.next_pending_order == before.next_pending_order
        &&& after.stats.mutated == before.stats.mutated
    } else {
        exists|lists: Seq<Vec<Op>>|
            Mutate::makes(case.ops@, lists) && #[trigger] lists_wait::<Op, Finalize>(
                before,
                after,
                case,
                lists,
            )
    }
}

/// A case that fails or covers something new.
pub open spec fn is_interesting(global: Set<CoverageId>, evaluation: CoverageEvaluation) -> bool {
    evaluation.failed() || !evaluation.coverage@.subset_of(global)
}

/// What a smaller case has to keep.
pub struct Demand {
    pub required: Set<CoverageId>,
    pub must_fail: bool,
}

/// A smaller case has to cover these, and to fail if it must.
pub open spec fn demand(required: Set<CoverageId>, must_fail: bool) -> Demand {
    Demand { required, must_fail }
}

impl Demand {
    /// The evaluation keeps it.
    pub open spec fn is_met(self, evaluation: CoverageEvaluation) -> bool {
        self.required.subset_of(evaluation.coverage@) && (self.must_fail ==> evaluation.failed())
    }
}

/// A case that was tried instead of another one, in shape. It is run only if it is better.
pub struct Trial<Op> {
    pub ops: Seq<Op>,
    pub evaluation: Option<CoverageEvaluation>,
}

impl<Op> Trial<Op> {
    pub open spec fn is_accepted(self, demand: Demand) -> bool {
        match self.evaluation {
            Some(evaluation) => demand.is_met(evaluation),
            None => false,
        }
    }

    pub open spec fn runs(self) -> int {
        if self.evaluation is Some {
            1
        } else {
            0
        }
    }
}

/// The trial may come of trying the list instead of `best`.
pub open spec fn is_trial<
    Op,
    Evaluate: CaseEvaluator<Op>,
    Cost: CostModel<Op>,
    Finalize: CaseFinalizer<Op>,
>(cost: Cost, best: Seq<Op>, list: Vec<Op>, trial: Trial<Op>) -> bool {
    &&& Finalize::shapes(list@, trial.ops)
    &&& match trial.evaluation {
        Some(evaluation) => scores_less(cost, trial.ops, best) && Evaluate::comes_of(
            trial.ops,
            evaluation,
        ),
        None => !scores_less(cost, trial.ops, best),
    }
}

/// How many of the trials were run.
pub open spec fn trial_runs<Op>(trials: Seq<Trial<Op>>) -> int
    decreases trials.len(),
{
    if trials.len() == 0 {
        0
    } else {
        trial_runs(trials.drop_last()) + trials.last().runs()
    }
}

/// The lists were tried one after the other up to the first that was accepted, or all of them.
pub open spec fn are_trials<
    Op,
    Evaluate: CaseEvaluator<Op>,
    Cost: CostModel<Op>,
    Finalize: CaseFinalizer<Op>,
>(
    cost: Cost,
    demand: Demand,
    best: Seq<Op>,
    lists: Seq<Vec<Op>>,
    trials: Seq<Trial<Op>>,
    accepted: bool,
) -> bool {
    &&& trials.len() <= lists.len()
    &&& forall|i: int|
        0 <= i < trials.len() ==> is_trial::<Op, Evaluate, Cost, Finalize>(
            cost,
            best,
            lists[i],
            #[trigger] trials[i],
        )
    &&& forall|i: int|
        0 <= i < trials.len() && !(accepted && i == trials.len() - 1) ==> !(
        #[trigger] trials[i]).is_accepted(demand)
    &&& if accepted {
        trials.len() > 0 && trials.last().is_accepted(demand)
    } else {
        trials.len() == lists.len()
    }
}

/// One step on the way to a smaller case: what was offered, and what came of it.
pub struct Round<Op> {
    pub deleted: Seq<Vec<Op>>,
    pub rewritten: Seq<Vec<Op>>,
    pub trials: Seq<Trial<Op>>,
    pub accepted: bool,
}

/// The case and its evaluation after the rounds.
pub open spec fn best_after<Op>(
    ops: Seq<Op>,
    evaluation: CoverageEvaluation,
    rounds: Seq<Round<Op>>,
) -> (Seq<Op>, CoverageEvaluation)
    decreases rounds.len(),
{
    if rounds.len() == 0 {
        (ops, evaluation)
    } else if rounds.last().accepted {
        (rounds.last().trials.last().ops, rounds.last().trials.last().evaluation->Some_0)
    } else {
        best_after(ops, evaluation, rounds.drop_last())
    }
}

/// How many cases were run in the rounds.
pub open spec fn round_runs<Op>(rounds: Seq<Round<Op>>) -> int
    decreases rounds.len(),
{
    if rounds.len() == 0 {
        0
    } else {
        round_runs(rounds.drop_last()) + trial_runs(rounds.last().trials)
    }
}

/// The round tries to leave out runs of operations of `best`, then the rewrites of it.
#[verifier::opaque]
pub open spec fn is_round<
    Op: Clone,
    Evaluate: CaseEvaluator<Op>,
    Cost: CostModel<Op>,
    Shrink: SequenceMutator<Op>,
    Finalize: CaseFinalizer<Op>,
>(cost: Cost, demand: Demand, best: Seq<Op>, round: Round<Op>) -> bool {
    &&& are_deletions(best, round.deleted)
    &&& Shrink::makes(best, round.rewritten)
    &&& are_trials::<Op, Evaluate, Cost, Finalize>(
        cost,
        demand,
        best,
        round.deleted + round.rewritten,
        round.trials,
        round.accepted,
    )
}

/// Rounds, one after the other, all of which but the last led to a smaller case.
pub open spec fn are_rounds<
    Op: Clone,
    Evaluate: CaseEvaluator<Op>,
    Cost: CostModel<Op>,
    Shrink: SequenceMutator<Op>,
    Finalize: CaseFinalizer<Op>,
>(
    cost: Cost,
    demand: Demand,
    ops: Seq<Op>,
    evaluation: CoverageEvaluation,
    rounds: Seq<Round<Op>>,
) -> bool {
    forall|i: int|
        0 <= i < rounds.len() ==> {
            &&& is_round::<Op, Evaluate, Cost, Shrink, Finalize>(
                cost,
                demand,
                best_after(ops, evaluation, rounds.take(i)).0,
                #[trigger] rounds[i],
            )
            &&& i < rounds.len() - 1 ==> rounds[i].accepted
        }
}

/// A case was made smaller in rounds until one led nowhere or there were `limit` of them.
pub open spec fn is_shrunk<
    Op: Clone,
    Evaluate: CaseEvaluator<Op>,
    Cost: CostModel<Op>,
    Shrink: SequenceMutator<Op>,
    Finalize: CaseFinalizer<Op>,
>(
    cost: Cost,
    demand: Demand,
    ops: Seq<Op>,
    evaluation: CoverageEvaluation,
    limit: usize,
    rounds: Seq<Round<Op>>,
) -> bool {
    &&& are_rounds::<Op, Evaluate, Cost, Shrink, Finalize>(cost, demand, ops, evaluation, rounds)
    &&& rounds.len() <= limit
    &&& rounds.len() < limit ==> rounds.len() > 0 && !rounds.last().accepted
}

/// An exploration that has run nothing.
pub open spec fn is_fresh<Op>(state: Exploration<Op>) -> bool {
    &&& state.global@ == Set::<CoverageId>::empty()
    &&& state.coverage_frequency@ == no_counts()
    &&& state.corpus@.len() == 0
    &&& state.initial_cases@.len() == 0
    &&& state.pending@.len() == 0
    &&& state.stats == (ExplorationStats {
        generated: 0,
        executed: 0,
        accepted: 0,
        failures: 0,
        coverage_ids: 0,
        mutated: 0,
    })
    &&& state.mutations_per_entry == 0
    &&& state.mutation_rounds == 0
    &&& state.max_shrink_steps == DEFAULT_SHRINK_STEPS
    &&& state.seed_interval == DEFAULT_SEED_INTERVAL
    &&& state.mutated_since_seed == 0
    &&& !state.seeds_exhausted
    &&& state.next_id == 0
    &&& state.next_pending_order == 0
}

impl<Op> Exploration<Op> {
    /// An exploration that has run nothing.
    pub fn new() -> (state: Exploration<Op>)
        ensures
            is_fresh(state),
    {
        Exploration {
            global: CoverageSet::new(),
            coverage_frequency: Frequencies::new(),
            corpus: Vec::new(),
            initial_cases: VecDeque::new(),
            pending: Vec::new(),
            stats: ExplorationStats {
                generated: 0,
                executed: 0,
                accepted: 0,
                failures: 0,
                coverage_ids: 0,
                mutated: 0,
            },
            mutations_per_entry: 0,
            mutation_rounds: 0,
            max_shrink_steps: DEFAULT_SHRINK_STEPS,
            seed_interval: DEFAULT_SEED_INTERVAL,
            mutated_since_seed: 0,
            seeds_exhausted: false,
            next_id: 0,
            next_pending_order: 0,
        }
    }

    fn should_try_seed(&self) -> (due: bool)
        ensures
            due == seed_is_due(*self),
    {
        !self.seeds_exhausted && (self.pending.len() == 0 || (self.seed_interval > 0
            && self.mutated_since_seed >= self.seed_interval))
    }

    /// Takes up the case that is scheduled.
    fn pop_scheduled_pending(&mut self) -> (case: Option<PendingCoverageCase<Op>>)
        ensures
            same_knowledge(*old(self), *final(self)),
            final(self).seeds_exhausted == old(self).seeds_exhausted,
            match case {
                Some(case) => scheduled_taken(*old(self), *final(self), case),
                None => old(self).pending@.len() == 0 && *final(self) == *old(self),
            },
    {
        if self.pending.len() == 0 {
            return None;
        }
        let ghost all = self.pending@;
        let mut place: usize = 0;
        let mut i: usize = 1;
        while i < self.pending.len()
            invariant
                *self == *old(self),
                all == self.pending@,
                1 <= i <= all.len(),
                place < i,
                place == scheduled_place(all.take(i as int)),
            decreases all.len() - i,
        {
            proof {
                let more = all.take(i + 1);
                assert(more.drop_last() =~= all.take(i as int));
                assert(more[place as int] == all[place as int]);
            }
            let later: bool = self.pending[i].priority < self.pending[place].priority || (
            self.pending[i].priority == self.pending[place].priority && self.pending[i].order
                > self.pending[place].order);
            if !later {
                place = i;
            }
            i += 1;
        }
        assert(all.take(all.len() as int) =~= all);
        let case = self.pending.remove(place);
        self.mutated_since_seed = self.mutated_since_seed.saturating_add(1);
        Some(case)
    }

    /// How many identifiers of the case were covered by no other one.
    fn rare_coverage_count(&self, case: &CoveredCase<Op>) -> (count: usize)
        ensures
            count == rare_count(self.coverage_frequency@, ascending_ids(case.coverage@)),
    {
        let ids = case.coverage.iter();
        proof {
            ascending_ids_are_unique(ids@, case.coverage@);
        }
        let mut count: usize = 0;
        let mut i: usize = 0;
        assert(ids@.take(0) =~= Seq::<CoverageId>::empty());
        while i < ids.len()
            invariant
                i <= ids@.len(),
                count <= i,
                count == rare_count(self.coverage_frequency@, ids@.take(i as int)),
            decreases ids@.len() - i,
        {
            assert(ids@.take(i + 1).drop_last() =~= ids@.take(i as int));
            if self.coverage_frequency.of(ids[i]) <= 1 {
                count += 1;
            }
            i += 1;
        }
        assert(ids@.take(ids@.len() as int) =~= ids@);
        count
    }

    /// How many rewrites a case is worth.
    pub fn mutation_energy(&self, case: &CoveredCase<Op>) -> (energy: usize)
        ensures
            energy == energy_of(*self, *case),
    {
        if self.mutations_per_entry == 0 || case.depth >= self.mutation_rounds {
            return 0;
        }
        let unique: usize = case.unique_coverage.len();
        let remaining: usize = self.mutations_per_entry - 1;
        let energy: usize = if unique <= remaining {
            1 + unique
        } else {
            1 + remaining
        };
        if energy < self.mutations_per_entry && self.rare_coverage_count(case) > 0 {
            energy + 1
        } else {
            energy
        }
    }

    /// How soon the rewrites of a case are run.
    pub fn mutation_priority(&self, case: &CoveredCase<Op>) -> (priority: u64)
        ensures
            priority == capped(priority_of(*self, *case)),
    {
        let ids = case.coverage.iter();
        proof {
            ascending_ids_are_unique(ids@, case.coverage@);
        }
        let mut rare: u128 = 0;
        let mut i: usize = 0;
        assert(ids@.take(0) =~= Seq::<CoverageId>::empty());
        while i < ids.len()
            invariant
                i <= ids@.len(),
                rare <= i * 1024,
                rare == rarity_sum(self.coverage_frequency@, ids@.take(i as int)),
            decreases ids@.len() - i,
        {
            assert(ids@.take(i + 1).drop_last() =~= ids@.take(i as int));
            let seen: u64 = self.coverage_frequency.of(ids[i]);
            let hits: u64 = if seen < 1 {
                1
            } else if seen > 1024 {
                1024
            } else {
                seen
            };
            let part: u64 = 1024 / hits;
            assert(part <= 1024) by (nonlinear_arith)
                requires
                    hits >= 1,
                    part == 1024u64 / hits,
            ;
            rare = rare + part as u128;
            i += 1;
        }
        assert(ids@.take(ids@.len() as int) =~= ids@);
        let size: u64 = case.cost / 16;
        let long: u64 = case.len as u64 / 8;
        let heavy: u128 = size as u128 + long as u128;
        let size_part: u128 = if heavy < 8192 {
            heavy
        } else {
            8192
        };
        let penalty: u128 = size_part + case.depth as u128 * 256;
        let failure: u128 = if case.is_failure() {
            0x4000_0000
        } else {
            0
        };
        let rest: u128 = if rare > penalty {
            rare - penalty
        } else {
            0
        };
        let priority: u128 = 1 + failure + case.unique_coverage.len() as u128 * 4096 + rest;
        if priority <= u64::MAX as u128 {
            priority as u64
        } else {
            u64::MAX
        }
    }

    /// Keeps a case that fails or covers something new.
    fn keep<Cost: CostModel<Op>>(
        &mut self,
        origin: &PendingCoverageCase<Op>,
        ops: Vec<Op>,
        evaluation: CoverageEvaluation,
        cost: &Cost,
    ) -> (case: CoveredCase<Op>)
        requires
            evaluation.failed() || !evaluation.coverage@.subset_of(old(self).global@),
        ensures
            forall|after: Exploration<Op>|
                {
                    &&& after.corpus@ == old(self).corpus@.push(case)
                    &&& after.global == final(self).global
                    &&& after.coverage_frequency == final(self).coverage_frequency
                    &&& after.next_id == final(self).next_id
                    &&& after.stats.accepted == final(self).stats.accepted
                    &&& after.stats.failures == final(self).stats.failures
                    &&& after.stats.coverage_ids == final(self).stats.coverage_ids
                    &&& after.stats.generated == final(self).stats.generated
                } ==> #[trigger] kept(*old(self), after, case, *cost),
            case.seed == origin.seed,
            case.parent == origin.parent,
            case.depth == origin.depth,
            case.ops == ops,
            case.coverage == evaluation.coverage,
            case.outcome == evaluation.outcome,
            final(self).corpus == old(self).corpus,
            final(self).pending == old(self).pending,
            final(self).initial_cases == old(self).initial_cases,
            final(self).mutations_per_entry == old(self).mutations_per_entry,
            final(self).mutation_rounds == old(self).mutation_rounds,
            final(self).max_shrink_steps == old(self).max_shrink_steps,
            final(self).seed_interval == old(self).seed_interval,
            final(self).next_pending_order == old(self).next_pending_order,
            final(self).mutated_since_seed == old(self).mutated_since_seed,
            final(self).seeds_exhausted == old(self).seeds_exhausted,
            final(self).stats.executed == old(self).stats.executed,
            final(self).stats.mutated == old(self).stats.mutated,
    {
        let unique_coverage = coverage_delta(&self.global, &evaluation.coverage);
        let id: u64 = self.next_id;
        self.next_id = self.next_id.wrapping_add(1);
        let failed: bool = evaluation.is_failure();
        let ids = copied_ids(evaluation.coverage.iter(), Ghost(evaluation.coverage@));
        self.coverage_frequency.count(&ids);
        self.global.extend(ids);
        self.stats.accepted = self.stats.accepted.saturating_add(1);
        if failed {
            self.stats.failures = self.stats.failures.saturating_add(1);
        }
        self.stats.coverage_ids = self.global.len() as u64;
        let total: u64 = cost.total_cost(&ops);
        let len: usize = ops.len();
        CoveredCase {
            id,
            seed: origin.seed,
            parent: origin.parent,
            depth: origin.depth,
            ops,
            coverage: evaluation.coverage,
            unique_coverage,
            outcome: evaluation.outcome,
            cost: total,
            len,
        }
    }
}

/// A copy of the identifiers of a set.
fn copied_ids(ids: &Vec<CoverageId>, Ghost(set): Ghost<Set<CoverageId>>) -> (copy: Vec<CoverageId>)
    requires
        strictly_ascending(ids@),
        ids@.to_set() == set,
    ensures
        copy@ == ascending_ids(set),
        copy@.to_set() == set,
{
    proof {
        ascending_ids_are_unique(ids@, set);
    }
    let mut copy: Vec<CoverageId> = Vec::with_capacity(ids.len());
    let mut i: usize = 0;
    while i < ids.len()
        invariant
            i <= ids@.len(),
            copy@ == ids@.take(i as int),
        decreases ids@.len() - i,
    {
        copy.push(ids[i]);
        assert(copy@ =~= ids@.take(i + 1));
        i += 1;
    }
    assert(copy@ =~= ids@);
    copy
}

impl<Op, Evaluate> CoverageGuided<
    Op,
    Evaluate,
    UnitCost,
    NoopSequenceMutator,
    NoopSequenceMutator,
    NoopFinalize,
> {
    /// An exploration that runs its cases so.
    pub fn new(evaluate: Evaluate) -> (guided: Self)
        ensures
            guided.evaluate == evaluate,
            is_fresh(guided.state),
    {
        CoverageGuided {
            evaluate,
            cost: UnitCost,
            mutate: NoopSequenceMutator,
            shrink: NoopSequenceMutator,
            finalize: NoopFinalize,
            state: Exploration::new(),
        }
    }
}

impl<Op, Evaluate, Cost, Mutate, Shrink, Finalize> CoverageGuided<
    Op,
    Evaluate,
    Cost,
    Mutate,
    Shrink,
    Finalize,
> {
    /// The exploration with another cost.
    pub fn cost<NewCost>(self, cost: NewCost) -> (guided: CoverageGuided<
        Op,
        Evaluate,
        NewCost,
        Mutate,
        Shrink,
        Finalize,
    >)
        ensures
            guided == (CoverageGuided {
                evaluate: self.evaluate,
                cost,
                mutate: self.mutate,
                shrink: self.shrink,
                finalize: self.finalize,
                state: self.state,
            }),
    {
        CoverageGuided {
            evaluate: self.evaluate,
            cost,
            mutate: self.mutate,
            shrink: self.shrink,
            finalize: self.finalize,
            state: self.state,
        }
    }

    /// The exploration with other rewrites of the cases that are kept.
    pub fn mutate<NewMutate>(self, mutate: NewMutate) -> (guided: CoverageGuided<
        Op,
        Evaluate,
        Cost,
        NewMutate,
        Shrink,
        Finalize,
    >)
        ensures
            guided == (CoverageGuided {
                evaluate: self.evaluate,
                cost: self.cost,
                mutate,
                shrink: self.shrink,
                finalize: self.finalize,
                state: self.state,
            }),
    {
        CoverageGuided {
            evaluate: self.evaluate,
            cost: self.cost,
            mutate,
            shrink: self.shrink,
            finalize: self.finalize,
            state: self.state,
        }
    }

    /// The exploration with other rewrites that make a case smaller.
    pub fn shrink<NewShrink>(self, shrink: NewShrink) -> (guided: CoverageGuided<
        Op,
        Evaluate,
        Cost,
        Mutate,
        NewShrink,
        Finalize,
    >)
        ensures
            guided == (CoverageGuided {
                evaluate: self.evaluate,
                cost: self.cost,
                mutate: self.mutate,
                shrink,
                finalize: self.finalize,
                state: self.state,
            }),
    {
        CoverageGuided {
            evaluate: self.evaluate,
            cost: self.cost,
            mutate: self.mutate,
            shrink,
            finalize: self.finalize,
            state: self.state,
        }
    }

    /// The exploration with another way to bring cases into shape.
    pub fn finalize<NewFinalize>(self, finalize: NewFinalize) -> (guided: CoverageGuided<
        Op,
        Evaluate,
        Cost,
        Mutate,
        Shrink,
        NewFinalize,
    >)
        ensures
            guided == (CoverageGuided {
                evaluate: self.evaluate,
                cost: self.cost,
                mutate: self.mutate,
                shrink: self.shrink,
                finalize,
                state: self.state,
            }),
    {
        CoverageGuided {
            evaluate: self.evaluate,
            cost: self.cost,
            mutate: self.mutate,
            shrink: self.shrink,
            finalize,
            state: self.state,
        }
    }

    /// At most so many rewrites of each case that is kept.
    pub fn mutations_per_entry(self, mutations_per_entry: usize) -> (guided: Self)
        ensures
            guided == (CoverageGuided {
                state: (Exploration { mutations_per_entry, ..self.state }),
                ..self
            }),
    {
        let mut guided = self;
        guided.state.mutations_per_entry = mutations_per_entry;
        guided
    }

    /// So many generations of rewrites.
    pub fn rounds(self, rounds: usize) -> (guided: Self)
        ensures
            guided == (CoverageGuided {
                state: (Exploration { mutation_rounds: rounds, ..self.state }),
                ..self
            }),
    {
        let mut guided = self;
        guided.state.mutation_rounds = rounds;
        guided
    }

    /// A case is made smaller at most so many times.
    pub fn max_shrink_steps(self, max_shrink_steps: usize) -> (guided: Self)
        ensures
            guided == (CoverageGuided {
                state: (Exploration { max_shrink_steps, ..self.state }),
                ..self
            }),
    {
        let mut guided = self;
        guided.state.max_shrink_steps = max_shrink_steps;
        guided
    }

    /// Hands in a case to run before all fresh ones.
    pub fn initial_cases(self, cases: Vec<Vec<Op>>) -> (guided: Self)
        ensures
            guided.state.initial_cases@ == self.state.initial_cases@ + cases@,
            guided == (CoverageGuided {
                state: (Exploration {
                    initial_cases: guided.state.initial_cases,
                    ..self.state
                }),
                ..self
            }),
    {
        let mut guided = self;
        let mut rest = cases;
        let mut more: VecDeque<Vec<Op>> = VecDeque::new();
        let total: usize = rest.len();
        let mut i: usize = 0;
        while i < total
            invariant
                i <= total,
                total == cases@.len(),
                rest@ == cases@.take(total - i),
                more@ == cases@.skip(total - i),
            decreases total - i,
        {
            match rest.pop() {
                Some(case) => {
                    more.push_front(case);
                },
                None => {},
            }
            i += 1;
            assert(rest@ =~= cases@.take(total - i));
            assert(more@ =~= cases@.skip(total - i));
        }
        assert(more@ =~= cases@);
        guided.state.initial_cases.append(&mut more);
        assert(guided.state.initial_cases@ =~= self.state.initial_cases@ + cases@);
        guided
    }

    /// So many rewrites are run before another fresh case is tried; zero stands for all of them.
    pub fn seed_interval(self, seed_interval: usize) -> (guided: Self)
        ensures
            guided == (CoverageGuided {
                state: (Exploration { seed_interval, ..self.state }),
                ..self
            }),
    {
        let mut guided = self;
        guided.state.seed_interval = seed_interval;
        guided
    }

    /// The counters of the exploration.
    pub fn stats(&self) -> (stats: ExplorationStats)
        ensures
            stats == self.state.stats,
    {
        self.state.stats
    }

    /// What was covered by the cases that are kept.
    pub fn global_coverage(&self) -> (coverage: &CoverageSet)
        ensures
            *coverage == self.state.global,
    {
        &self.state.global
    }

    /// The cases that are kept.
    pub fn corpus(&self) -> (corpus: &Vec<CoveredCase<Op>>)
        ensures
            *corpus == self.state.corpus,
    {
        &self.state.corpus
    }
}

impl<
    Op: Clone,
    Evaluate: CaseEvaluator<Op>,
    Cost: CostModel<Op>,
    Mutate: SequenceMutator<Op>,
    Shrink: SequenceMutator<Op>,
    Finalize: CaseFinalizer<Op>,
> CoverageGuided<Op, Evaluate, Cost, Mutate, Shrink, Finalize> {
    /// A case that was not made from another one, brought into shape.
    fn root(&mut self, ops: Vec<Op>, seed: Option<u64>) -> (case: PendingCoverageCase<Op>)
        ensures
            is_root(case, seed),
            Finalize::shapes(ops@, case.ops@),
            root_taken(old(self).state, final(self).state),
            same_knowledge(old(self).state, final(self).state),
            final(self).state.pending == old(self).state.pending,
            final(self).state.initial_cases == old(self).state.initial_cases,
            final(self).state.seeds_exhausted == old(self).state.seeds_exhausted,
            final(self).evaluate == old(self).evaluate,
            final(self).cost == old(self).cost,
            final(self).mutate == old(self).mutate,
            final(self).shrink == old(self).shrink,
    {
        let ops = self.finalize.finalize(ops);
        self.state.stats.generated = self.state.stats.generated.saturating_add(1);
        self.state.mutated_since_seed = 0;
        PendingCoverageCase { ops, seed, parent: None, depth: 0, priority: u64::MAX, order: 0 }
    }

    /// What is to be done next: the cases that were handed in come first; then a fresh case, if one
    /// is due or nothing else is left; then the case that is scheduled.
    pub fn next_work(&mut self) -> (work: Work<Op>)
        ensures
            same_knowledge(old(self).state, final(self).state),
            final(self).state.seeds_exhausted == old(self).state.seeds_exhausted,
            final(self).evaluate == old(self).evaluate,
            final(self).cost == old(self).cost,
            final(self).mutate == old(self).mutate,
            final(self).shrink == old(self).shrink,
            if old(self).state.initial_cases@.len() > 0 {
                &&& work is Run
                &&& is_root(work->Run_0, None)
                &&& Finalize::shapes(old(self).state.initial_cases@[0]@, work->Run_0.ops@)
                &&& root_taken(old(self).state, final(self).state)
                &&& final(self).state.initial_cases@ == old(self).state.initial_cases@.skip(1)
                &&& final(self).state.pending == old(self).state.pending
            } else if seed_is_due(old(self).state) || old(self).state.pending@.len() == 0 {
                work is Seed && final(self).state == old(self).state
            } else {
                work is Run && scheduled_taken(old(self).state, final(self).state, work->Run_0)
            },
            work matches Work::Run(case) ==> is_taken_up::<Op, Finalize>(
                old(self).state,
                final(self).state,
                case,
            ),
            counters_tally(old(self).state, 0) ==> counters_grow(
                old(self).state,
                final(self).state,
            ) && counters_tally(
                final(self).state,
                if work is Run {
                    1
                } else {
                    0
                },
            ),
            is_in_order::<Op, Finalize>(old(self).state, 0) ==> match work {
                Work::Run(case) => is_in_order::<Op, Finalize>(final(self).state, 1) && may_run::<
                    Op,
                    Finalize,
                >(final(self).state, case),
                Work::Seed => is_in_order::<Op, Finalize>(final(self).state, 0),
            },
    {
        if self.state.initial_cases.len() > 0 {
            if let Some(ops) = self.state.initial_cases.pop_front() {
                assert(self.state.initial_cases@ =~= old(self).state.initial_cases@.skip(1));
                let case = self.root(ops, None);
                proof {
                    if is_in_order::<Op, Finalize>(old(self).state, 0) {
                        taken_up_cases_may_run::<Op, Finalize>(old(self).state, self.state, case);
                    }
                }
                return Work::Run(case);
            }
        }
        if self.state.should_try_seed() {
            return Work::Seed;
        }
        match self.state.pop_scheduled_pending() {
            Some(case) => {
                proof {
                    if is_in_order::<Op, Finalize>(old(self).state, 0) {
                        taken_up_cases_may_run::<Op, Finalize>(old(self).state, self.state, case);
                    }
                }
                Work::Run(case)
            },
            None => Work::Seed,
        }
    }

    /// Takes up a fresh case with its seed; without one, the case that is scheduled.
    pub fn offer_seed(&mut self, fresh: Option<(u64, Vec<Op>)>) -> (case: Option<
        PendingCoverageCase<Op>,
    >)
        ensures
            same_knowledge(old(self).state, final(self).state),
            final(self).evaluate == old(self).evaluate,
            final(self).cost == old(self).cost,
            final(self).mutate == old(self).mutate,
            final(self).shrink == old(self).shrink,
            match fresh {
                Some((seed, ops)) => {
                    &&& case is Some
                    &&& is_root(case->Some_0, Some(seed))
                    &&& Finalize::shapes(ops@, case->Some_0.ops@)
                    &&& root_taken(old(self).state, final(self).state)
                    &&& final(self).state.pending == old(self).state.pending
                    &&& final(self).state.seeds_exhausted == old(self).state.seeds_exhausted
                },
                None => {
                    &&& final(self).state.seeds_exhausted
                    &&& case is Some <==> old(self).state.pending@.len() > 0
                    &&& case matches Some(case) ==> scheduled_taken(
                        old(self).state,
                        final(self).state,
                        case,
                    )
                    &&& case is None ==> final(self).state == (Exploration {
                        seeds_exhausted: true,
                        ..old(self).state
                    })
                },
            },
            final(self).state.initial_cases == old(self).state.initial_cases,
            case matches Some(case) ==> is_taken_up::<Op, Finalize>(
                old(self).state,
                final(self).state,
                case,
            ),
            counters_tally(old(self).state, 0) ==> counters_grow(
                old(self).state,
                final(self).state,
            ) && counters_tally(
                final(self).state,
                if case is Some {
                    1
                } else {
                    0
                },
            ),
            is_in_order::<Op, Finalize>(old(self).state, 0) ==> match case {
                Some(case) => is_in_order::<Op, Finalize>(final(self).state, 1) && may_run::<
                    Op,
                    Finalize,
                >(final(self).state, case),
                None => is_in_order::<Op, Finalize>(final(self).state, 0),
            },
    {
        let case = match fresh {
            Some((seed, ops)) => Some(self.root(ops, Some(seed))),
            None => {
                self.state.seeds_exhausted = true;
                self.state.pop_scheduled_pending()
            },
        };
        proof {
            if is_in_order::<Op, Finalize>(old(self).state, 0) {
                if case is Some {
                    taken_up_cases_may_run::<Op, Finalize>(
                        old(self).state,
                        self.state,
                        case->Some_0,
                    );
                } else {
                    exhausted_seeds_keep_order::<Op, Finalize>(old(self).state);
                }
            }
        }
        case
    }

    /// Makes a case smaller while it covers what it has to, and fails if it failed.
    fn shrink_interesting(
        &mut self,
        ops: Vec<Op>,
        evaluation: CoverageEvaluation,
        required: &CoverageSet,
    ) -> (shrunk: (Vec<Op>, CoverageEvaluation, Ghost<Seq<Round<Op>>>))
        requires
            required@.subset_of(evaluation.coverage@),
        ensures
            is_shrunk::<Op, Evaluate, Cost, Shrink, Finalize>(
                old(self).cost,
                demand(required@, evaluation.failed()),
                ops@,
                evaluation,
                old(self).state.max_shrink_steps,
                shrunk.2@,
            ),
            (shrunk.0@, shrunk.1) == best_after(ops@, evaluation, shrunk.2@),
            shrunk.0@ == ops@ || scores_less(old(self).cost, shrunk.0@, ops@),
            demand(required@, evaluation.failed()).is_met(shrunk.1),
            final(self).cost == old(self).cost,
            final(self).state == (Exploration {
                stats: (ExplorationStats {
                    executed: counted_up(old(self).state.stats.executed, round_runs(shrunk.2@)),
                    ..old(self).state.stats
                }),
                ..old(self).state
            }),
            round_runs(shrunk.2@) >= 0,
    {
        let must_fail: bool = evaluation.is_failure();
        let ghost wanted = demand(required@, must_fail);
        let ghost mut rounds: Seq<Round<Op>> = Seq::empty();
        let ghost given = ops@;
        let mut smaller = ops;
        let mut last = evaluation;
        let mut steps: usize = 0;
        while steps < self.state.max_shrink_steps
            invariant
                given == ops@,
                must_fail == evaluation.failed(),
                wanted == demand(required@, must_fail),
                are_rounds::<Op, Evaluate, Cost, Shrink, Finalize>(
                    self.cost,
                    wanted,
                    given,
                    evaluation,
                    rounds,
                ),
                rounds.len() == steps,
                rounds.len() > 0 ==> rounds.last().accepted,
                (smaller@, last) == best_after(given, evaluation, rounds),
                smaller@ == given || scores_less(self.cost, smaller@, given),
                wanted.is_met(last),
                round_runs(rounds) >= 0,
                steps <= self.state.max_shrink_steps,
                self.cost == old(self).cost,
                self.state == (Exploration {
                    stats: (ExplorationStats {
                        executed: counted_up(old(self).state.stats.executed, round_runs(rounds)),
                        ..old(self).state.stats
                    }),
                    ..old(self).state
                }),
            decreases self.state.max_shrink_steps - steps,
        {
            let mut candidates = emit_deletion_candidates(&smaller);
            let ghost deleted = candidates@;
            let mut more = self.shrink.mutate(&smaller);
            let ghost rewritten = more@;
            candidates.append(&mut more);
            let (found, Ghost(trials)) = self.first_smaller(
                candidates,
                &smaller,
                required,
                must_fail,
            );
            let ghost round = Round { deleted, rewritten, trials, accepted: found is Some };
            proof {
                reveal(is_round);
                lemma_another_round::<Op, Evaluate, Cost, Shrink, Finalize>(
                    self.cost,
                    wanted,
                    given,
                    evaluation,
                    rounds,
                    round,
                );
                rounds = rounds.push(round);
            }
            match found {
                Some((better, kept)) => {
                    smaller = better;
                    last = kept;
                },
                None => {
                    return (smaller, last, Ghost(rounds));
                },
            }
            steps += 1;
        }
        (smaller, last, Ghost(rounds))
    }

    /// The first of the cases that is better than `best`, covers what it has to, and fails if it has
    /// to.
    fn first_smaller(
        &mut self,
        candidates: Vec<Vec<Op>>,
        best: &Vec<Op>,
        required: &CoverageSet,
        must_fail: bool,
    ) -> (found: (Option<(Vec<Op>, CoverageEvaluation)>, Ghost<Seq<Trial<Op>>>))
        ensures
            are_trials::<Op, Evaluate, Cost, Finalize>(
                old(self).cost,
                demand(required@, must_fail),
                best@,
                candidates@,
                found.1@,
                found.0 is Some,
            ),
            found.0 matches Some(kept) ==> found.1@.last() == (Trial {
                ops: kept.0@,
                evaluation: Some(kept.1),
            }),
            trial_runs(found.1@) >= 0,
            final(self).cost == old(self).cost,
            final(self).state == (Exploration {
                stats: (ExplorationStats {
                    executed: counted_up(old(self).state.stats.executed, trial_runs(found.1@)),
                    ..old(self).state.stats
                }),
                ..old(self).state
            }),
    {
        let ghost wanted = demand(required@, must_fail);
        let ghost mut trials: Seq<Trial<Op>> = Seq::empty();
        let best_cost: u64 = self.cost.total_cost(best);
        let total: usize = candidates.len();
        let mut ordered = turned(candidates);
        let mut i: usize = 0;
        while i < total
            invariant
                wanted == demand(required@, must_fail),
                best_cost == self.cost.cost(best@),
                i <= total,
                total == candidates@.len(),
                ordered@ == candidates@.skip(i as int).reverse(),
                trials.len() == i,
                forall|k: int|
                    0 <= k < i ==> is_trial::<Op, Evaluate, Cost, Finalize>(
                        self.cost,
                        best@,
                        candidates@[k],
                        #[trigger] trials[k],
                    ) && !trials[k].is_accepted(wanted),
                trial_runs(trials) >= 0,
                self.cost == old(self).cost,
                self.state == (Exploration {
                    stats: (ExplorationStats {
                        executed: counted_up(old(self).state.stats.executed, trial_runs(trials)),
                        ..old(self).state.stats
                    }),
                    ..old(self).state
                }),
            decreases total - i,
        {
            if let Some(candidate) = ordered.pop() {
                assert(candidate == candidates@[i as int]);
                let shaped = self.finalize.finalize(candidate);
                let cost: u64 = self.cost.total_cost(&shaped);
                let ghost before = trials;
                if cost < best_cost || (cost == best_cost && shaped.len() < best.len()) {
                    let evaluation = self.evaluate.evaluate(&shaped);
                    self.state.stats.executed = self.state.stats.executed.saturating_add(1);
                    proof {
                        trials = trials.push(
                            Trial { ops: shaped@, evaluation: Some(evaluation) },
                        );
                        assert(trials.drop_last() =~= before);
                    }
                    if (!must_fail || evaluation.is_failure())
                        && evaluation.coverage.is_superset(required) {
                        return (Some((shaped, evaluation)), Ghost(trials));
                    }
                } else {
                    proof {
                        trials = trials.push(Trial { ops: shaped@, evaluation: None });
                        assert(trials.drop_last() =~= before);
                    }
                }
            }
            i += 1;
            assert(ordered@ =~= candidates@.skip(i as int).reverse());
        }
        (None, Ghost(trials))
    }

    /// Queues the rewrites of a case that is kept.
    fn enqueue_mutations(&mut self, case: &CoveredCase<Op>)
        ensures
            rewrites_wait::<Op, Mutate, Finalize>(old(self).state, final(self).state, *case),
            final(self).cost == old(self).cost,
            final(self).state == (Exploration {
                pending: final(self).state.pending,
                next_pending_order: final(self).state.next_pending_order,
                stats: (ExplorationStats {
                    mutated: final(self).state.stats.mutated,
                    ..old(self).state.stats
                }),
                ..old(self).state
            }),
    {
        let energy: usize = self.state.mutation_energy(case);
        let ghost start = self.state;
        let ghost waiting = self.state.pending@;
        assert(waiting.take(waiting.len() as int) =~= waiting);
        if energy == 0 {
            return;
        }
        let lists = self.mutate.mutate(&case.ops);
        let ghost all = lists@;
        let mut rest = lists;
        if rest.len() > energy {
            rest.truncate(energy);
        }
        let total: usize = rest.len();
        let ghost queued = rest@;
        assert(queued =~= all.take(total as int));
        let mut ordered = turned(rest);
        let priority: u64 = self.state.mutation_priority(case);
        let mut n: usize = 0;
        while n < total
            invariant
                n <= total,
                total == queued.len(),
                ordered@ == queued.skip(n as int).reverse(),
                case.depth < usize::MAX,
                start == old(self).state,
                priority == capped(priority_of(start, *case)),
                waiting == start.pending@,
                self.cost == old(self).cost,
                self.state.pending@.len() == waiting.len() + n,
                self.state.pending@.take(waiting.len() as int) == waiting,
                forall|i: int|
                    0 <= i < n ==> is_queued::<Op, Finalize>(
                        start,
                        *case,
                        #[trigger] queued[i],
                        i,
                        self.state.pending@[waiting.len() + i],
                    ),
                self.state == (Exploration {
                    pending: self.state.pending,
                    next_pending_order: wrapped(start.next_pending_order, n as int),
                    stats: (ExplorationStats {
                        mutated: counted_up(start.stats.mutated, n as int),
                        ..start.stats
                    }),
                    ..start
                }),
            decreases total - n,
        {
            if let Some(list) = ordered.pop() {
                assert(list == queued[n as int]);
                let ops = self.finalize.finalize(list);
                let order: u64 = self.state.next_pending_order;
                self.state.next_pending_order = order.wrapping_add(1);
                let ghost before = self.state.pending@;
                self.state.pending.push(
                    PendingCoverageCase {
                        ops,
                        seed: None,
                        parent: Some(case.id),
                        depth: case.depth + 1,
                        priority,
                        order,
                    },
                );
                self.state.stats.mutated = self.state.stats.mutated.saturating_add(1);
                proof {
                    assert(self.state.pending@.take(waiting.len() as int) =~= before.take(
                        waiting.len() as int,
                    ));
                    lemma_wrapped(start.next_pending_order, n as int);
                    assert forall|i: int| 0 <= i < n + 1 implies is_queued::<Op, Finalize>(
                        start,
                        *case,
                        #[trigger] queued[i],
                        i,
                        self.state.pending@[waiting.len() + i],
                    ) by {
                        if i < n {
                            assert(self.state.pending@[waiting.len() + i] == before[waiting.len()
                                + i]);
                        }
                    }
                }
            }
            n += 1;
            assert(ordered@ =~= queued.skip(n as int).reverse());
        }
        proof {
            assert forall|i: int| 0 <= i < total implies is_queued::<Op, Finalize>(
                start,
                *case,
                #[trigger] all[i],
                i,
                self.state.pending@[waiting.len() + i],
            ) by {
                assert(queued[i] == all[i]);
            }
            assert(queued_count(start, *case, all.len() as int) == total);
            assert(lists_wait::<Op, Finalize>(start, self.state, *case, all));
        }
    }

    /// Runs a case. If it fails or covers something new, it is made smaller and kept.
    ///
    /// Says at which place of the corpus the case stands, if it is kept.
    pub fn run(&mut self, case: PendingCoverageCase<Op>) -> (place: Option<usize>)
        ensures
            final(self).cost == old(self).cost,
            has_run::<Op, Evaluate, Cost, Mutate, Shrink, Finalize>(
                old(self).state,
                final(self).state,
                old(self).cost,
                case,
                place,
            ),
            counters_tally(old(self).state, 1) ==> counters_tally(final(self).state, 0)
                && counters_grow(old(self).state, final(self).state),
            is_in_order::<Op, Finalize>(old(self).state, 1) && may_run::<Op, Finalize>(
                old(self).state,
                case,
            ) ==> is_in_order::<Op, Finalize>(final(self).state, 0),
    {
        let place = self.run_once(case);
        proof {
            if counters_tally(old(self).state, 1) {
                runs_keep_the_tally::<Op, Evaluate, Cost, Mutate, Shrink, Finalize>(
                    old(self).state,
                    self.state,
                    old(self).cost,
                    case,
                    place,
                );
            }
            if is_in_order::<Op, Finalize>(old(self).state, 1) && may_run::<Op, Finalize>(
                old(self).state,
                case,
            ) {
                runs_keep_order::<Op, Evaluate, Cost, Mutate, Shrink, Finalize>(
                    old(self).state,
                    self.state,
                    old(self).cost,
                    case,
                    place,
                );
            }
        }
        place
    }

    fn run_once(&mut self, case: PendingCoverageCase<Op>) -> (place: Option<usize>)
        ensures
            final(self).cost == old(self).cost,
            has_run::<Op, Evaluate, Cost, Mutate, Shrink, Finalize>(
                old(self).state,
                final(self).state,
                old(self).cost,
                case,
                place,
            ),
    {
        let ghost start = self.state;
        let evaluation = self.evaluate.evaluate(&case.ops);
        let ghost first = evaluation;
        self.state.stats.executed = self.state.stats.executed.saturating_add(1);
        if !is_coverage_interesting(
            &self.state.global,
            &evaluation.coverage,
            evaluation.is_failure(),
        ) {
            assert(was_dull(start, self.state, first, None));
            assert(comes_to::<Op, Evaluate, Cost, Mutate, Shrink, Finalize>(
                start,
                self.state,
                self.cost,
                case,
                None,
                first,
            ));
            return None;
        }
        let required = coverage_delta(&self.state.global, &evaluation.coverage);
        let mut case = case;
        let ghost given = case;
        let mut ops: Vec<Op> = Vec::new();
        std::mem::swap(&mut ops, &mut case.ops);
        let (ops, evaluation, Ghost(rounds)) = self.shrink_interesting(ops, evaluation, &required);
        assert(is_interesting(start.global@, evaluation)) by {
            if !first.failed() {
                let id = choose|id: CoverageId|
                    first.coverage@.contains(id) && !start.global@.contains(id);
                assert(required@.contains(id));
            }
        }
        let ghost before = self.state;
        let covered = self.state.keep(&case, ops, evaluation, &self.cost);
        let ghost counted = self.state;
        self.enqueue_mutations(&covered);
        let ghost queued = self.state;
        let place: usize = self.state.corpus.len();
        self.state.corpus.push(covered);
        proof {
            assert(kept(before, self.state, covered, self.cost));
            assert(required@ == first.coverage@.difference(start.global@));
            lemma_rewrites_wait::<Op, Mutate, Finalize>(
                counted,
                (Exploration {
                    coverage_frequency: self.state.coverage_frequency,
                    ..start
                }),
                queued,
                self.state,
                covered,
            );
            assert(was_kept::<Op, Evaluate, Cost, Mutate, Shrink, Finalize>(
                start,
                self.state,
                self.cost,
                given,
                place,
                first,
                rounds,
            ));
            assert(was_kept_in_rounds::<Op, Evaluate, Cost, Mutate, Shrink, Finalize>(
                start,
                self.state,
                self.cost,
                given,
                place,
                first,
            ));
            assert(Evaluate::comes_of(given.ops@, first));
            assert(comes_to::<Op, Evaluate, Cost, Mutate, Shrink, Finalize>(
                start,
                self.state,
                self.cost,
                given,
                Some(place),
                first,
            ));
        }
        Some(place)
    }
}

/// A number and the next one.
proof fn lemma_wrapped(number: u64, n: int)
    requires
        n >= 0,
    ensures
        wrapped(number, n + 1) == wrapped(wrapped(number, n), 1),
        wrapped(number, 0) == number,
{
    vstd::arithmetic::div_mod::lemma_add_mod_noop(number + n, 1, 0x1_0000_0000_0000_0000);
    vstd::arithmetic::div_mod::lemma_small_mod(number as nat, 0x1_0000_0000_0000_0000);
    vstd::arithmetic::div_mod::lemma_small_mod(1, 0x1_0000_0000_0000_0000);
}

proof fn lemma_another_round<
    Op: Clone,
    Evaluate: CaseEvaluator<Op>,
    Cost: CostModel<Op>,
    Shrink: SequenceMutator<Op>,
    Finalize: CaseFinalizer<Op>,
>(
    cost: Cost,
    demand: Demand,
    ops: Seq<Op>,
    evaluation: CoverageEvaluation,
    rounds: Seq<Round<Op>>,
    round: Round<Op>,
)
    requires
        are_rounds::<Op, Evaluate, Cost, Shrink, Finalize>(cost, demand, ops, evaluation, rounds),
        rounds.len() > 0 ==> rounds.last().accepted,
        is_round::<Op, Evaluate, Cost, Shrink, Finalize>(
            cost,
            demand,
            best_after(ops, evaluation, rounds).0,
            round,
        ),
    ensures
        are_rounds::<Op, Evaluate, Cost, Shrink, Finalize>(
            cost,
            demand,
            ops,
            evaluation,
            rounds.push(round),
        ),
        rounds.push(round).drop_last() == rounds,
{
    let more = rounds.push(round);
    assert(more.drop_last() =~= rounds);
    assert forall|i: int| 0 <= i < more.len() implies {
        &&& is_round::<Op, Evaluate, Cost, Shrink, Finalize>(
            cost,
            demand,
            best_after(ops, evaluation, more.take(i)).0,
            #[trigger] more[i],
        )
        &&& i < more.len() - 1 ==> more[i].accepted
    } by {
        assert(more.take(i) =~= rounds.take(i));
        if i < rounds.len() {
            assert(more[i] == rounds[i]);
        } else {
            assert(rounds.take(i) =~= rounds);
        }
    }
}

/// The rewrites wait in the same way whatever else is known.
proof fn lemma_rewrites_wait<Op, Mutate: SequenceMutator<Op>, Finalize: CaseFinalizer<Op>>(
    before: Exploration<Op>,
    other: Exploration<Op>,
    queued: Exploration<Op>,
    after: Exploration<Op>,
    case: CoveredCase<Op>,
)
    requires
        rewrites_wait::<Op, Mutate, Finalize>(before, queued, case),
        after.pending == queued.pending,
        after.next_pending_order == queued.next_pending_order,
        after.stats.mutated == queued.stats.mutated,
        other.pending == before.pending,
        other.next_pending_order == before.next_pending_order,
        other.stats.mutated == before.stats.mutated,
        other.coverage_frequency == before.coverage_frequency,
        other.mutations_per_entry == before.mutations_per_entry,
        other.mutation_rounds == before.mutation_rounds,
    ensures
        rewrites_wait::<Op, Mutate, Finalize>(other, after, case),
{
    assert(energy_of(other, case) == energy_of(before, case));
    assert(priority_of(other, case) == priority_of(before, case));
    if energy_of(before, case) != 0 {
        let lists = choose|lists: Seq<Vec<Op>>|
            Mutate::makes(case.ops@, lists) && #[trigger] lists_wait::<Op, Finalize>(
                before,
                queued,
                case,
                lists,
            );
        assert(queued_count(other, case, lists.len() as int) == queued_count(
            before,
            case,
            lists.len() as int,
        ));
        assert forall|i: int|
            0 <= i < queued_count(before, case, lists.len() as int) implies is_queued::<
            Op,
            Finalize,
        >(
            other,
            case,
            #[trigger] lists[i],
            i,
            after.pending@[other.pending@.len() + i],
        ) by {
            assert(is_queued::<Op, Finalize>(
                before,
                case,
                lists[i],
                i,
                queued.pending@[before.pending@.len() + i],
            ));
        }
        assert(lists_wait::<Op, Finalize>(other, after, case, lists));
    }
}

/// Nothing came of a run, and only the counter of runs differs.
pub open spec fn was_dull<Op>(
    before: Exploration<Op>,
    after: Exploration<Op>,
    evaluation: CoverageEvaluation,
    place: Option<usize>,
) -> bool {
    &&& !is_interesting(before.global@, evaluation)
    &&& place is None
    &&& after == (Exploration {
        stats: (ExplorationStats {
            executed: counted_up(before.stats.executed, 1),
            ..before.stats
        }),
        ..before
    })
}

/// A case was run, made smaller in rounds, and kept; its rewrites wait.
pub open spec fn was_kept<
    Op: Clone,
    Evaluate: CaseEvaluator<Op>,
    Cost: CostModel<Op>,
    Mutate: SequenceMutator<Op>,
    Shrink: SequenceMutator<Op>,
    Finalize: CaseFinalizer<Op>,
>(
    before: Exploration<Op>,
    after: Exploration<Op>,
    cost: Cost,
    run: PendingCoverageCase<Op>,
    place: usize,
    evaluation: CoverageEvaluation,
    rounds: Seq<Round<Op>>,
) -> bool {
    let case = after.corpus@[place as int];
    let wanted = demand(evaluation.coverage@.difference(before.global@), evaluation.failed());
    let best = best_after(run.ops@, evaluation, rounds);
    &&& is_interesting(before.global@, evaluation)
    &&& is_shrunk::<Op, Evaluate, Cost, Shrink, Finalize>(
        cost,
        wanted,
        run.ops@,
        evaluation,
        before.max_shrink_steps,
        rounds,
    )
    &&& place == before.corpus@.len()
    &&& kept(before, after, case, cost)
    &&& case.seed == run.seed
    &&& case.parent == run.parent
    &&& case.depth == run.depth
    &&& case.ops@ == best.0
    &&& case.coverage == best.1.coverage
    &&& case.outcome == best.1.outcome
    &&& wanted.is_met(best.1)
    &&& case.ops@ == run.ops@ || scores_less(cost, case.ops@, run.ops@)
    &&& rewrites_wait::<Op, Mutate, Finalize>(
        (Exploration { coverage_frequency: after.coverage_frequency, ..before }),
        after,
        case,
    )
    &&& after.stats.executed == counted_up(before.stats.executed, 1 + round_runs(rounds))
    &&& after.initial_cases == before.initial_cases
    &&& after.mutations_per_entry == before.mutations_per_entry
    &&& after.mutation_rounds == before.mutation_rounds
    &&& after.max_shrink_steps == before.max_shrink_steps
    &&& after.seed_interval == before.seed_interval
    &&& after.mutated_since_seed == before.mutated_since_seed
    &&& after.seeds_exhausted == before.seeds_exhausted
}

/// A case was run, made smaller, and kept.
pub open spec fn was_kept_in_rounds<
    Op: Clone,
    Evaluate: CaseEvaluator<Op>,
    Cost: CostModel<Op>,
    Mutate: SequenceMutator<Op>,
    Shrink: SequenceMutator<Op>,
    Finalize: CaseFinalizer<Op>,
>(
    before: Exploration<Op>,
    after: Exploration<Op>,
    cost: Cost,
    run: PendingCoverageCase<Op>,
    place: usize,
    evaluation: CoverageEvaluation,
) -> bool {
    exists|rounds: Seq<Round<Op>>| #[trigger]
        was_kept::<Op, Evaluate, Cost, Mutate, Shrink, Finalize>(
            before,
            after,
            cost,
            run,
            place,
            evaluation,
            rounds,
        )
}

/// What becomes of a case if its run comes to this evaluation.
pub open spec fn comes_to<
    Op: Clone,
    Evaluate: CaseEvaluator<Op>,
    Cost: CostModel<Op>,
    Mutate: SequenceMutator<Op>,
    Shrink: SequenceMutator<Op>,
    Finalize: CaseFinalizer<Op>,
>(
    before: Exploration<Op>,
    after: Exploration<Op>,
    cost: Cost,
    run: PendingCoverageCase<Op>,
    place: Option<usize>,
    evaluation: CoverageEvaluation,
) -> bool {
    &&& Evaluate::comes_of(run.ops@, evaluation)
    &&& match place {
        None => was_dull(before, after, evaluation, place),
        Some(place) => was_kept_in_rounds::<Op, Evaluate, Cost, Mutate, Shrink, Finalize>(
            before,
            after,
            cost,
            run,
            place,
            evaluation,
        ),
    }
}

/// A case was run: it is kept if and only if its run fails or covers something new.
pub open spec fn has_run<
    Op: Clone,
    Evaluate: CaseEvaluator<Op>,
    Cost: CostModel<Op>,
    Mutate: SequenceMutator<Op>,
    Shrink: SequenceMutator<Op>,
    Finalize: CaseFinalizer<Op>,
>(
    before: Exploration<Op>,
    after: Exploration<Op>,
    cost: Cost,
    run: PendingCoverageCase<Op>,
    place: Option<usize>,
) -> bool {
    exists|evaluation: CoverageEvaluation| #[trigger]
        comes_to::<Op, Evaluate, Cost, Mutate, Shrink, Finalize>(
            before,
            after,
            cost,
            run,
            place,
            evaluation,
        )
}

/// A run loses nothing: what was covered stays covered, the cases that were kept stay where they
/// are, and at most one is added, which fails or covers something new.
pub proof fn runs_lose_nothing<
    Op: Clone,
    Evaluate: CaseEvaluator<Op>,
    Cost: CostModel<Op>,
    Mutate: SequenceMutator<Op>,
    Shrink: SequenceMutator<Op>,
    Finalize: CaseFinalizer<Op>,
>(
    before: Exploration<Op>,
    after: Exploration<Op>,
    cost: Cost,
    run: PendingCoverageCase<Op>,
    place: Option<usize>,
)
    requires
        has_run::<Op, Evaluate, Cost, Mutate, Shrink, Finalize>(before, after, cost, run, place),
    ensures
        before.global@.subset_of(after.global@),
        before.corpus@ == after.corpus@.take(before.corpus@.len() as int),
        after.corpus@.len() <= before.corpus@.len() + 1,
        place is Some <==> after.corpus@.len() == before.corpus@.len() + 1,
        place is Some ==> after.corpus@.last().outcome is Err
            || !after.corpus@.last().coverage@.subset_of(before.global@),
{
    let evaluation = choose|evaluation: CoverageEvaluation| #[trigger]
        comes_to::<Op, Evaluate, Cost, Mutate, Shrink, Finalize>(
            before,
            after,
            cost,
            run,
            place,
            evaluation,
        );
    match place {
        None => {
            assert(after.corpus@.take(before.corpus@.len() as int) =~= before.corpus@);
        },
        Some(place) => {
            let case = after.corpus@[place as int];
            assert(kept(before, after, case, cost));
            assert(after.corpus@.take(before.corpus@.len() as int) =~= before.corpus@);
        },
    }
}

/// There is a rare identifier exactly if one of them was seen no more than once.
proof fn lemma_rare_count(counts: Map<u64, u64>, ids: Seq<CoverageId>)
    ensures
        rare_count(counts, ids) >= 0,
        rare_count(counts, ids) > 0 <==> exists|k: int|
            0 <= k < ids.len() && frequency(counts, #[trigger] ids[k]) <= 1,
    decreases ids.len(),
{
    if ids.len() > 0 {
        lemma_rare_count(counts, ids.drop_last());
        if exists|k: int|
            0 <= k < ids.drop_last().len() && frequency(counts, #[trigger] ids.drop_last()[k])
                <= 1 {
            let k = choose|k: int|
                0 <= k < ids.drop_last().len() && frequency(counts, #[trigger] ids.drop_last()[k])
                    <= 1;
            assert(ids[k] == ids.drop_last()[k]);
        }
        if exists|k: int| 0 <= k < ids.len() && frequency(counts, #[trigger] ids[k]) <= 1 {
            let k = choose|k: int| 0 <= k < ids.len() && frequency(counts, #[trigger] ids[k]) <= 1;
            if k < ids.len() - 1 {
                assert(ids.drop_last()[k] == ids[k]);
            }
        }
    }
}

/// A case that may be rewritten is worth one rewrite, one more for each identifier that it was the
/// first to cover, and one more if it covers one that no other case does; but no more than are
/// allowed. One that is as deep as rewrites may be is worth none.
pub proof fn energy_grows_with_what_is_new<Op>(
    state: Exploration<Op>,
    case: CoveredCase<Op>,
)
    ensures
        case.depth >= state.mutation_rounds ==> energy_of(state, case) == 0,
        case.depth < state.mutation_rounds ==> ({
            let ids = ascending_ids(case.coverage@);
            let worth = 1 + case.unique_coverage@.len() + if exists|k: int|
                0 <= k < ids.len() && frequency(state.coverage_frequency@, #[trigger] ids[k]) <= 1 {
                1int
            } else {
                0
            };
            energy_of(state, case) == if worth <= state.mutations_per_entry {
                worth
            } else {
                state.mutations_per_entry as int
            }
        }),
{
    lemma_rare_count(state.coverage_frequency@, ascending_ids(case.coverage@));
}

/// An identifier that was seen so often is that many times less rare than one that was seen once,
/// down to one part in 1024; one that was seen more often is never rarer.
pub proof fn rarity_falls_with_hits(
    counts: Map<u64, u64>,
    id: CoverageId,
    other: CoverageId,
)
    ensures
        1 <= rarity(counts, id) <= 1024,
        frequency(counts, id) <= 1 ==> rarity(counts, id) == 1024,
        1 <= frequency(counts, id) <= 1024 ==> rarity(counts, id) * frequency(counts, id) <= 1024
            && 1024 < (rarity(counts, id) + 1) * frequency(counts, id),
        frequency(counts, id) >= 1024 ==> rarity(counts, id) == 1,
        frequency(counts, id) <= frequency(counts, other) ==> rarity(counts, id) >= rarity(
            counts,
            other,
        ),
{
    let clip = |f: u64|
        if f < 1 {
            1int
        } else if f > 1024 {
            1024
        } else {
            f as int
        };
    let a = clip(frequency(counts, id));
    let b = clip(frequency(counts, other));
    assert(1 <= 1024int / a <= 1024 && (1024int / a) * a <= 1024 && 1024 < (1024int / a + 1) * a)
        by (nonlinear_arith)
        requires
            1 <= a <= 1024,
    ;
    if frequency(counts, id) <= frequency(counts, other) {
        assert(1024int / a >= 1024int / b) by (nonlinear_arith)
            requires
                1 <= a <= b <= 1024,
        ;
    }
}

/// A larger, costlier or deeper case never goes first on that account.
pub proof fn priority_falls_with_size<Op>(
    state: Exploration<Op>,
    small: CoveredCase<Op>,
    large: CoveredCase<Op>,
)
    requires
        small.coverage == large.coverage,
        small.unique_coverage@.len() == large.unique_coverage@.len(),
        small.outcome is Err <==> large.outcome is Err,
        small.cost <= large.cost,
        small.len <= large.len,
        small.depth <= large.depth,
    ensures
        priority_of(state, small) >= priority_of(state, large),
        priority_of(state, large) >= 1,
{
    assert(small.cost / 16 <= large.cost / 16);
    assert(small.len / 8 <= large.len / 8);
}

/// One more identifier that a case was the first to cover raises its priority by 4096, a failure
/// by two to the thirtieth.
pub proof fn priority_rises_with_what_is_new<Op>(
    state: Exploration<Op>,
    less: CoveredCase<Op>,
    more: CoveredCase<Op>,
)
    requires
        less.coverage == more.coverage,
        less.cost == more.cost,
        less.len == more.len,
        less.depth == more.depth,
    ensures
        ({
            let failure = |case: CoveredCase<Op>|
                if case.outcome is Err {
                    0x4000_0000int
                } else {
                    0
                };
            priority_of(state, more) - priority_of(state, less) == failure(more) - failure(less) + (
            more.unique_coverage@.len() - less.unique_coverage@.len()) * 4096
        }),
{
}

/// The size of a case takes a sixteenth of its cost and an eighth of its length off its priority,
/// up to 8192 in all; its depth takes 256 for each level. What is left of its rarity counts.
pub proof fn size_takes_off_rarity<Op>(state: Exploration<Op>, case: CoveredCase<Op>)
    requires
        case.outcome is Ok,
        case.unique_coverage@.len() == 0,
    ensures
        ({
            let rare = rarity_sum(state.coverage_frequency@, ascending_ids(case.coverage@));
            let taken = rare - (priority_of(state, case) - 1);
            &&& case.cost / 16 + case.len / 8 <= 8192 && rare > case.cost / 16 + case.len / 8
                + case.depth * 256 ==> taken == case.cost / 16 + case.len / 8 + case.depth * 256
            &&& case.cost / 16 + case.len / 8 > 8192 && rare > 8192 + case.depth * 256 ==> taken
                == 8192 + case.depth * 256
        }),
{
}

/// What is kept is counted once: the numbers of cases count up, and so do those that were accepted
/// and those that failed.
pub proof fn kept_cases_are_counted<Op, Cost: CostModel<Op>>(
    before: Exploration<Op>,
    after: Exploration<Op>,
    case: CoveredCase<Op>,
    cost: Cost,
)
    requires
        kept(before, after, case, cost),
        before.next_id < u64::MAX,
        before.stats.accepted < u64::MAX,
        before.stats.failures < u64::MAX,
    ensures
        case.id == before.next_id,
        after.next_id == before.next_id + 1,
        after.stats.accepted == before.stats.accepted + 1,
        after.stats.failures - before.stats.failures == if case.outcome is Err {
            1int
        } else {
            0
        },
        after.corpus@.len() == before.corpus@.len() + 1,
        after.corpus@.last() == case,
        forall|id: CoverageId| #[trigger]
            after.global@.contains(id) <==> before.global@.contains(id) || case.coverage@.contains(
                id,
            ),
        forall|id: CoverageId| #[trigger]
            case.unique_coverage@.contains(id) <==> case.coverage@.contains(id)
                && !before.global@.contains(id),
{
}

} // verus!
