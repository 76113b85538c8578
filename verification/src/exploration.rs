//! What holds of an exploration from its first case on.

use crate::coverage::{coverage_is_finite, CoverageId};
use crate::coverage_guided::{
    are_trials, best_after, comes_to, energy_of, has_run, is_fresh, is_queued, is_root, is_round,
    is_shrunk, is_trial, kept, lists_wait, queued_count, rewrites_wait, root_taken, round_runs,
    same_knowledge, scheduled_comes_first, scheduled_place, scheduled_taken, trial_runs, was_kept,
    CaseEvaluator, CaseFinalizer, CoverageEvaluation, CoveredCase, Demand, Exploration,
    PendingCoverageCase, Round, Trial,
};
use crate::reduce::{CostModel, SequenceMutator};
use vstd::prelude::*;

verus! {

/// A finalizer brought some operations into this shape.
pub open spec fn is_shaped<Op, Finalize: CaseFinalizer<Op>>(ops: Seq<Op>) -> bool {
    exists|list: Seq<Op>| #[trigger] Finalize::shapes(list, ops)
}

/// Where a case comes from: it is a root at depth zero, or a rewrite of one of the first `n`
/// entries of the corpus, without a seed and one deeper than that entry, where rewrites are
/// allowed.
pub open spec fn descends<Op>(
    state: Exploration<Op>,
    n: int,
    seed: Option<u64>,
    parent: Option<u64>,
    depth: usize,
) -> bool {
    match parent {
        None => depth == 0,
        Some(parent) => {
            &&& parent < n
            &&& seed is None
            &&& depth == state.corpus@[parent as int].depth + 1
            &&& depth <= state.mutation_rounds
            &&& state.mutations_per_entry > 0
        },
    }
}

/// A case that may wait to be run: it is in shape, and comes from an entry of the corpus or from
/// nowhere.
pub open spec fn may_wait<Op, Finalize: CaseFinalizer<Op>>(
    state: Exploration<Op>,
    case: PendingCoverageCase<Op>,
) -> bool {
    &&& is_shaped::<Op, Finalize>(case.ops@)
    &&& descends(state, state.corpus@.len() as int, case.seed, case.parent, case.depth)
}

/// How many of the entries are rewrites of the entry with this number.
pub open spec fn rewrites_kept<Op>(corpus: Seq<CoveredCase<Op>>, id: u64) -> int
    decreases corpus.len(),
{
    if corpus.len() == 0 {
        0
    } else {
        rewrites_kept(corpus.drop_last(), id) + if corpus.last().parent == Some(id) {
            1int
        } else {
            0int
        }
    }
}

/// How many of the cases that wait are rewrites of the entry with this number.
pub open spec fn rewrites_waiting<Op>(pending: Seq<PendingCoverageCase<Op>>, id: u64) -> int
    decreases pending.len(),
{
    if pending.len() == 0 {
        0
    } else {
        rewrites_waiting(pending.drop_last(), id) + if pending.last().parent == Some(id) {
            1int
        } else {
            0int
        }
    }
}

/// How many rewrites of the entry with this number are kept or wait.
pub open spec fn rewrites_of<Op>(state: Exploration<Op>, id: u64) -> int {
    rewrites_kept(state.corpus@, id) + rewrites_waiting(state.pending@, id)
}

/// A case that may be run: it might have waited, and its parent has no more rewrites with it than
/// are allowed.
pub open spec fn may_run<Op, Finalize: CaseFinalizer<Op>>(
    state: Exploration<Op>,
    case: PendingCoverageCase<Op>,
) -> bool {
    &&& may_wait::<Op, Finalize>(state, case)
    &&& case.parent matches Some(parent) ==> rewrites_of(state, parent)
        < state.mutations_per_entry
}

/// The entry at `place` is numbered by its place, is in shape, and comes from an earlier entry or
/// from nowhere.
pub open spec fn is_entry<Op, Finalize: CaseFinalizer<Op>>(
    state: Exploration<Op>,
    place: int,
    case: CoveredCase<Op>,
) -> bool {
    &&& case.id == place
    &&& is_shaped::<Op, Finalize>(case.ops@)
    &&& descends(state, place, case.seed, case.parent, case.depth)
}

/// How many of the entries failed.
pub open spec fn failing<Op>(corpus: Seq<CoveredCase<Op>>) -> int
    decreases corpus.len(),
{
    if corpus.len() == 0 {
        0
    } else {
        failing(corpus.drop_last()) + if corpus.last().outcome is Err {
            1int
        } else {
            0int
        }
    }
}

/// What the entries cover together.
pub open spec fn covered<Op>(corpus: Seq<CoveredCase<Op>>) -> Set<CoverageId>
    decreases corpus.len(),
{
    if corpus.len() == 0 {
        Set::empty()
    } else {
        covered(corpus.drop_last()).union(corpus.last().coverage@)
    }
}

/// The counters say what the corpus holds: its entries, the failing ones among them, and what they
/// cover. Every entry was run, and so was every root but the `open` ones that were taken up last.
pub open spec fn counters_tally<Op>(state: Exploration<Op>, open: int) -> bool {
    &&& state.next_id == state.corpus@.len()
    &&& state.global@ == covered(state.corpus@)
    &&& state.stats.accepted == state.corpus@.len()
    &&& state.stats.failures == failing(state.corpus@)
    &&& state.stats.coverage_ids == state.global@.len()
    &&& state.stats.accepted <= state.stats.executed
    &&& state.stats.generated <= state.stats.executed + open
}

/// No entry has more rewrites than are allowed, and there are none where none are allowed.
pub open spec fn rewrites_are_few<Op>(state: Exploration<Op>) -> bool {
    &&& forall|id: u64| #[trigger] rewrites_of(state, id) <= state.mutations_per_entry
    &&& state.stats.mutated <= state.mutations_per_entry * state.stats.accepted
    &&& state.mutations_per_entry == 0 || state.mutation_rounds == 0 ==> state.stats.mutated == 0
        && state.pending@.len() == 0
}

/// What holds of an exploration at any time, while `open` of its roots are taken up and not run.
pub open spec fn is_in_order<Op, Finalize: CaseFinalizer<Op>>(
    state: Exploration<Op>,
    open: int,
) -> bool {
    &&& counters_tally(state, open)
    &&& rewrites_are_few(state)
    &&& forall|i: int|
        0 <= i < state.corpus@.len() ==> is_entry::<Op, Finalize>(
            state,
            i,
            #[trigger] state.corpus@[i],
        )
    &&& forall|i: int|
        0 <= i < state.pending@.len() ==> (#[trigger] state.pending@[i]).parent is Some
            && may_wait::<Op, Finalize>(state, state.pending@[i])
}

/// No counter falls.
pub open spec fn counters_grow<Op>(before: Exploration<Op>, after: Exploration<Op>) -> bool {
    &&& before.stats.generated <= after.stats.generated
    &&& before.stats.executed <= after.stats.executed
    &&& before.stats.accepted <= after.stats.accepted
    &&& before.stats.failures <= after.stats.failures
    &&& before.stats.coverage_ids <= after.stats.coverage_ids
    &&& before.stats.mutated <= after.stats.mutated
}

/// A case was taken up to be run: a root in shape, or the case that was scheduled.
pub open spec fn is_taken_up<Op, Finalize: CaseFinalizer<Op>>(
    before: Exploration<Op>,
    after: Exploration<Op>,
    case: PendingCoverageCase<Op>,
) -> bool {
    &&& same_knowledge(before, after)
    &&& {
        ||| {
            &&& is_root(case, case.seed)
            &&& is_shaped::<Op, Finalize>(case.ops@)
            &&& root_taken(before, after)
            &&& after.pending == before.pending
        }
        ||| scheduled_taken(before, after, case)
    }
}

/// A fresh exploration is in order, whatever it was told to do: how many rewrites to make, how deep
/// to go, which cases to run first.
pub proof fn fresh_explorations_are_in_order<Op, Finalize: CaseFinalizer<Op>>(
    fresh: Exploration<Op>,
    state: Exploration<Op>,
)
    requires
        is_fresh(fresh),
        state == (Exploration {
            mutations_per_entry: state.mutations_per_entry,
            mutation_rounds: state.mutation_rounds,
            max_shrink_steps: state.max_shrink_steps,
            seed_interval: state.seed_interval,
            initial_cases: state.initial_cases,
            ..fresh
        }),
    ensures
        is_in_order::<Op, Finalize>(state, 0),
{
    assert forall|id: u64| #[trigger]
        rewrites_of(state, id) <= state.mutations_per_entry by {}
}

/// What an exploration is told to do changes none of its counters, at any time.
pub proof fn settings_keep_the_tally<Op>(before: Exploration<Op>, after: Exploration<Op>, open: int)
    requires
        counters_tally(before, open),
        after == (Exploration {
            mutations_per_entry: after.mutations_per_entry,
            mutation_rounds: after.mutation_rounds,
            max_shrink_steps: after.max_shrink_steps,
            seed_interval: after.seed_interval,
            initial_cases: after.initial_cases,
            seeds_exhausted: after.seeds_exhausted,
            ..before
        }),
    ensures
        counters_tally(after, open),
        after.stats == before.stats,
{
}

/// To take up a case keeps the tally, and lowers no counter.
pub proof fn taken_up_cases_keep_the_tally<Op, Finalize: CaseFinalizer<Op>>(
    before: Exploration<Op>,
    after: Exploration<Op>,
    case: PendingCoverageCase<Op>,
)
    requires
        counters_tally(before, 0),
        is_taken_up::<Op, Finalize>(before, after, case),
    ensures
        counters_tally(after, 1),
        counters_grow(before, after),
{
}

proof fn lemma_waiting_without<Op>(pending: Seq<PendingCoverageCase<Op>>, place: int, id: u64)
    requires
        0 <= place < pending.len(),
    ensures
        rewrites_waiting(pending.remove(place), id) == rewrites_waiting(pending, id) - (
        if pending[place].parent == Some(id) {
            1int
        } else {
            0int
        }),
    decreases pending.len(),
{
    let fewer = pending.remove(place);
    if place == pending.len() - 1 {
        assert(fewer =~= pending.drop_last());
    } else {
        lemma_waiting_without(pending.drop_last(), place, id);
        assert(fewer.drop_last() =~= pending.drop_last().remove(place));
        assert(fewer.last() == pending.last());
    }
}

/// Cases that are queued behind others for one entry count for that entry only.
proof fn lemma_waiting_with<Op>(
    before: Seq<PendingCoverageCase<Op>>,
    after: Seq<PendingCoverageCase<Op>>,
    entry: u64,
    id: u64,
)
    requires
        before.len() <= after.len(),
        after.take(before.len() as int) == before,
        forall|i: int|
            before.len() <= i < after.len() ==> (#[trigger] after[i]).parent == Some(entry),
    ensures
        rewrites_waiting(after, id) == rewrites_waiting(before, id) + (if id == entry {
            after.len() - before.len()
        } else {
            0int
        }),
    decreases after.len(),
{
    if after.len() == before.len() {
        assert(after =~= before);
    } else {
        let fewer = after.drop_last();
        assert(fewer.take(before.len() as int) =~= before);
        assert forall|i: int| before.len() <= i < fewer.len() implies (
        #[trigger] fewer[i]).parent == Some(entry) by {
            assert(fewer[i] == after[i]);
        }
        lemma_waiting_with(before, fewer, entry, id);
        assert(after[after.len() - 1].parent == Some(entry));
    }
}

/// Nothing comes from an entry that is not there yet.
proof fn lemma_no_rewrites<Op>(
    corpus: Seq<CoveredCase<Op>>,
    pending: Seq<PendingCoverageCase<Op>>,
    id: u64,
)
    requires
        forall|i: int|
            0 <= i < corpus.len() ==> ((#[trigger] corpus[i]).parent matches Some(parent)
                ==> parent < id),
        forall|i: int|
            0 <= i < pending.len() ==> ((#[trigger] pending[i]).parent matches Some(parent)
                ==> parent < id),
    ensures
        rewrites_kept(corpus, id) == 0,
        rewrites_waiting(pending, id) == 0,
    decreases corpus.len() + pending.len(),
{
    if corpus.len() > 0 {
        let fewer = corpus.drop_last();
        assert(corpus.last() == corpus[corpus.len() - 1]);
        assert forall|i: int| 0 <= i < fewer.len() implies ((
        #[trigger] fewer[i]).parent matches Some(parent) ==> parent < id) by {
            assert(fewer[i] == corpus[i]);
        }
        lemma_no_rewrites(fewer, pending, id);
    } else if pending.len() > 0 {
        let fewer = pending.drop_last();
        assert(pending.last() == pending[pending.len() - 1]);
        assert forall|i: int| 0 <= i < fewer.len() implies ((
        #[trigger] fewer[i]).parent matches Some(parent) ==> parent < id) by {
            assert(fewer[i] == pending[i]);
        }
        lemma_no_rewrites(corpus, fewer, id);
    }
}

/// To take up a case keeps an exploration in order, and the case may be run: a rewrite names an
/// earlier entry, has no seed, is one deeper than that entry, and is one of not too many.
pub proof fn taken_up_cases_may_run<Op, Finalize: CaseFinalizer<Op>>(
    before: Exploration<Op>,
    after: Exploration<Op>,
    case: PendingCoverageCase<Op>,
)
    requires
        is_in_order::<Op, Finalize>(before, 0),
        is_taken_up::<Op, Finalize>(before, after, case),
    ensures
        is_in_order::<Op, Finalize>(after, 1),
        may_run::<Op, Finalize>(after, case),
        counters_grow(before, after),
{
    assert forall|i: int| 0 <= i < after.corpus@.len() implies is_entry::<Op, Finalize>(
        after,
        i,
        #[trigger] after.corpus@[i],
    ) by {
        assert(is_entry::<Op, Finalize>(before, i, before.corpus@[i]));
    }
    if scheduled_taken(before, after, case) {
        let place = scheduled_place(before.pending@);
        scheduled_comes_first(before.pending@);
        assert(before.pending@[place] == case);
        assert forall|i: int| 0 <= i < after.pending@.len() implies (
        #[trigger] after.pending@[i]).parent is Some && may_wait::<Op, Finalize>(
            after,
            after.pending@[i],
        ) by {
            let at = if i < place {
                i
            } else {
                i + 1
            };
            assert(after.pending@[i] == before.pending@[at]);
        }
        assert forall|id: u64| #[trigger]
            rewrites_of(after, id) == rewrites_of(before, id) - (if case.parent == Some(id) {
            1int
        } else {
            0int
        }) by {
            lemma_waiting_without(before.pending@, place, id);
        }
        assert(rewrites_of(before, case.parent->Some_0) <= before.mutations_per_entry);
        assert forall|id: u64| #[trigger]
            rewrites_of(after, id) <= after.mutations_per_entry by {
            assert(rewrites_of(before, id) <= before.mutations_per_entry);
        }
    } else {
        assert forall|id: u64| #[trigger]
            rewrites_of(after, id) <= after.mutations_per_entry by {
            assert(rewrites_of(before, id) <= before.mutations_per_entry);
        }
        assert forall|i: int| 0 <= i < after.pending@.len() implies (
        #[trigger] after.pending@[i]).parent is Some && may_wait::<Op, Finalize>(
            after,
            after.pending@[i],
        ) by {
            assert(after.pending@[i] == before.pending@[i]);
        }
    }
}

/// That no fresh case is left keeps an exploration in order.
pub proof fn exhausted_seeds_keep_order<Op, Finalize: CaseFinalizer<Op>>(before: Exploration<Op>)
    requires
        is_in_order::<Op, Finalize>(before, 0),
    ensures
        is_in_order::<Op, Finalize>((Exploration { seeds_exhausted: true, ..before }), 0),
{
    let after = Exploration { seeds_exhausted: true, ..before };
    assert forall|i: int| 0 <= i < after.corpus@.len() implies is_entry::<Op, Finalize>(
        after,
        i,
        #[trigger] after.corpus@[i],
    ) by {
        assert(is_entry::<Op, Finalize>(before, i, before.corpus@[i]));
    }
    assert forall|i: int| 0 <= i < after.pending@.len() implies (
    #[trigger] after.pending@[i]).parent is Some && may_wait::<Op, Finalize>(
        after,
        after.pending@[i],
    ) by {
        assert(before.pending@[i] == after.pending@[i]);
    }
    assert forall|id: u64| #[trigger] rewrites_of(after, id) <= after.mutations_per_entry by {
        assert(rewrites_of(before, id) <= before.mutations_per_entry);
    }
}

proof fn lemma_trial_runs<Op>(trials: Seq<Trial<Op>>)
    ensures
        trial_runs(trials) >= 0,
    decreases trials.len(),
{
    if trials.len() > 0 {
        lemma_trial_runs(trials.drop_last());
    }
}

proof fn lemma_round_runs<Op>(rounds: Seq<Round<Op>>)
    ensures
        round_runs(rounds) >= 0,
    decreases rounds.len(),
{
    if rounds.len() > 0 {
        lemma_round_runs(rounds.drop_last());
        lemma_trial_runs(rounds.last().trials);
    }
}

/// Every list of the round was brought into shape before it was tried.
pub open spec fn tries_shapes<Op, Finalize: CaseFinalizer<Op>>(round: Round<Op>) -> bool {
    &&& forall|i: int|
        0 <= i < round.trials.len() ==> is_shaped::<Op, Finalize>((#[trigger] round.trials[i]).ops)
    &&& round.accepted ==> round.trials.len() > 0
}

/// Whatever is tried while a case is made smaller is brought into shape before it is run.
pub proof fn smaller_cases_are_in_shape<
    Op: Clone,
    Evaluate: CaseEvaluator<Op>,
    Cost: CostModel<Op>,
    Shrink: SequenceMutator<Op>,
    Finalize: CaseFinalizer<Op>,
>(
    cost: Cost,
    demand: Demand,
    ops: Seq<Op>,
    evaluation: CoverageEvaluation,
    limit: usize,
    rounds: Seq<Round<Op>>,
)
    requires
        is_shrunk::<Op, Evaluate, Cost, Shrink, Finalize>(
            cost,
            demand,
            ops,
            evaluation,
            limit,
            rounds,
        ),
    ensures
        forall|i: int|
            0 <= i < rounds.len() ==> tries_shapes::<Op, Finalize>(#[trigger] rounds[i]),
        is_shaped::<Op, Finalize>(ops) ==> is_shaped::<Op, Finalize>(
            best_after(ops, evaluation, rounds).0,
        ),
{
    assert forall|i: int| 0 <= i < rounds.len() implies tries_shapes::<Op, Finalize>(
        #[trigger] rounds[i],
    ) by {
        let best = best_after(ops, evaluation, rounds.take(i)).0;
        let round = rounds[i];
        assert(is_round::<Op, Evaluate, Cost, Shrink, Finalize>(cost, demand, best, round));
        reveal(is_round);
        let lists = round.deleted + round.rewritten;
        assert(are_trials::<Op, Evaluate, Cost, Finalize>(
            cost,
            demand,
            best,
            lists,
            round.trials,
            round.accepted,
        ));
        assert forall|j: int| 0 <= j < round.trials.len() implies is_shaped::<Op, Finalize>(
            (#[trigger] round.trials[j]).ops,
        ) by {
            assert(is_trial::<Op, Evaluate, Cost, Finalize>(
                cost,
                best,
                lists[j],
                round.trials[j],
            ));
            assert(Finalize::shapes(lists[j]@, round.trials[j].ops));
        }
    }
    if is_shaped::<Op, Finalize>(ops) {
        lemma_best_is_shaped::<Op, Finalize>(ops, evaluation, rounds);
    }
}

proof fn lemma_best_is_shaped<Op, Finalize: CaseFinalizer<Op>>(
    ops: Seq<Op>,
    evaluation: CoverageEvaluation,
    rounds: Seq<Round<Op>>,
)
    requires
        is_shaped::<Op, Finalize>(ops),
        forall|i: int|
            0 <= i < rounds.len() ==> tries_shapes::<Op, Finalize>(#[trigger] rounds[i]),
    ensures
        is_shaped::<Op, Finalize>(best_after(ops, evaluation, rounds).0),
    decreases rounds.len(),
{
    if rounds.len() > 0 {
        let last = rounds.last();
        assert(tries_shapes::<Op, Finalize>(rounds[rounds.len() - 1]));
        if last.accepted {
            assert(is_shaped::<Op, Finalize>(last.trials[last.trials.len() - 1].ops));
        } else {
            let fewer = rounds.drop_last();
            assert forall|i: int| 0 <= i < fewer.len() implies tries_shapes::<Op, Finalize>(
                #[trigger] fewer[i],
            ) by {
                assert(fewer[i] == rounds[i]);
            }
            lemma_best_is_shaped::<Op, Finalize>(ops, evaluation, fewer);
        }
    }
}

proof fn lemma_failing_is_few<Op>(corpus: Seq<CoveredCase<Op>>)
    ensures
        0 <= failing(corpus) <= corpus.len(),
    decreases corpus.len(),
{
    if corpus.len() > 0 {
        lemma_failing_is_few(corpus.drop_last());
    }
}

/// The rewrites of a new entry: at most as many as are allowed, all of them rewrites of it, and
/// none where it is as deep as rewrites may be.
pub open spec fn queues_rightly<Op>(before: Exploration<Op>, after: Exploration<Op>) -> bool {
    let old_len = before.pending@.len();
    let entry = after.corpus@.last();
    &&& after.pending@.len() <= old_len + before.mutations_per_entry
    &&& after.pending@.len() >= old_len
    &&& after.pending@.take(old_len as int) == before.pending@
    &&& forall|i: int|
        old_len <= i < after.pending@.len() ==> (#[trigger] after.pending@[i]).parent == Some(
            entry.id,
        )
    &&& entry.depth >= before.mutation_rounds ==> after.pending@.len() == old_len
}

/// What was queued for a new entry.
proof fn lemma_queued<Op, Mutate: SequenceMutator<Op>, Finalize: CaseFinalizer<Op>>(
    before: Exploration<Op>,
    after: Exploration<Op>,
    case: CoveredCase<Op>,
)
    requires
        rewrites_wait::<Op, Mutate, Finalize>(
            (Exploration { coverage_frequency: after.coverage_frequency, ..before }),
            after,
            case,
        ),
        after.corpus@ == before.corpus@.push(case),
        case.id == before.corpus@.len(),
        after.mutations_per_entry == before.mutations_per_entry,
        after.mutation_rounds == before.mutation_rounds,
        before.stats.mutated <= before.mutations_per_entry * before.corpus@.len(),
    ensures
        queues_rightly(before, after),
        forall|i: int|
            before.pending@.len() <= i < after.pending@.len() ==> may_wait::<Op, Finalize>(
                after,
                #[trigger] after.pending@[i],
            ),
        before.stats.mutated <= after.stats.mutated,
        after.stats.mutated <= after.mutations_per_entry * after.corpus@.len(),
        before.mutations_per_entry == 0 || before.mutation_rounds == 0 ==> after.stats.mutated
            == before.stats.mutated && after.pending == before.pending,
{
    let known = Exploration { coverage_frequency: after.coverage_frequency, ..before };
    let limit = before.mutations_per_entry as int;
    let entries = before.corpus@.len() as int;
    assert(limit * (entries + 1) == limit * entries + limit) by (nonlinear_arith);
    assert(after.corpus@.last() == case);
    if energy_of(known, case) == 0 {
        assert(after.pending@.take(before.pending@.len() as int) =~= before.pending@);
    } else {
        let lists = choose|lists: Seq<Vec<Op>>|
            Mutate::makes(case.ops@, lists) && #[trigger] lists_wait::<Op, Finalize>(
                known,
                after,
                case,
                lists,
            );
        let n = queued_count(known, case, lists.len() as int);
        assert(0 <= n <= limit);
        assert forall|i: int|
            before.pending@.len() <= i < after.pending@.len() implies may_wait::<Op, Finalize>(
            after,
            #[trigger] after.pending@[i],
        ) && after.pending@[i].parent == Some(case.id) by {
            let k = i - before.pending@.len();
            assert(is_queued::<Op, Finalize>(known, case, lists[k], k, after.pending@[i]));
            assert(Finalize::shapes(lists[k]@, after.pending@[i].ops@));
            assert(after.corpus@[entries] == case);
        }
    }
}

/// The rewrites of an entry that was added, and of those before it.
proof fn lemma_rewrites_stay_few<Op, Finalize: CaseFinalizer<Op>>(
    before: Exploration<Op>,
    after: Exploration<Op>,
    case: CoveredCase<Op>,
)
    requires
        is_in_order::<Op, Finalize>(before, 1),
        after.corpus@ == before.corpus@.push(case),
        case.id == before.corpus@.len(),
        after.mutations_per_entry == before.mutations_per_entry,
        queues_rightly(before, after),
        case.parent matches Some(parent) ==> parent < case.id && rewrites_of(before, parent)
            < before.mutations_per_entry,
    ensures
        forall|id: u64| #[trigger] rewrites_of(after, id) <= after.mutations_per_entry,
{
    assert(after.corpus@.drop_last() =~= before.corpus@);
    assert(after.corpus@.last() == case);
    assert forall|id: u64| #[trigger] rewrites_of(after, id) <= after.mutations_per_entry by {
        assert(rewrites_of(before, id) <= before.mutations_per_entry);
        lemma_waiting_with(before.pending@, after.pending@, case.id, id);
        if id == case.id {
            assert forall|i: int| 0 <= i < before.corpus@.len() implies ((
            #[trigger] before.corpus@[i]).parent matches Some(parent) ==> parent < id) by {
                assert(is_entry::<Op, Finalize>(before, i, before.corpus@[i]));
            }
            lemma_no_rewrites(before.corpus@, before.pending@, id);
        }
    }
}

/// A run keeps the tally, and lowers no counter.
pub proof fn runs_keep_the_tally<
    Op: Clone,
    Evaluate: CaseEvaluator<Op>,
    Cost: CostModel<Op>,
    Mutate: SequenceMutator<Op>,
    Shrink: SequenceMutator<Op>,
    Finalize: CaseFinalizer<Op>,
>(
    before: Exploration<Op>,
    after: Exploration<Op>,
    cost: Cost,
    run: PendingCoverageCase<Op>,
    place: Option<usize>,
)
    requires
        counters_tally(before, 1),
        has_run::<Op, Evaluate, Cost, Mutate, Shrink, Finalize>(before, after, cost, run, place),
    ensures
        counters_tally(after, 0),
        counters_grow(before, after),
{
    let evaluation = choose|evaluation: CoverageEvaluation| #[trigger]
        comes_to::<Op, Evaluate, Cost, Mutate, Shrink, Finalize>(
            before,
            after,
            cost,
            run,
            place,
            evaluation,
        );
    if let Some(at) = place {
        let rounds = choose|rounds: Seq<Round<Op>>| #[trigger]
            was_kept::<Op, Evaluate, Cost, Mutate, Shrink, Finalize>(
                before,
                after,
                cost,
                run,
                at,
                evaluation,
                rounds,
            );
        lemma_round_runs(rounds);
        lemma_kept::<Op, Cost>(before, after, after.corpus@[at as int], cost);
    }
}

/// A run keeps an exploration in order: what it keeps is numbered by its place, in shape, and comes
/// from where the case came from; the counters tally and none falls; and the rewrites that it queues
/// are rewrites of the new entry, as many as are allowed.
pub proof fn runs_keep_order<
    Op: Clone,
    Evaluate: CaseEvaluator<Op>,
    Cost: CostModel<Op>,
    Mutate: SequenceMutator<Op>,
    Shrink: SequenceMutator<Op>,
    Finalize: CaseFinalizer<Op>,
>(
    before: Exploration<Op>,
    after: Exploration<Op>,
    cost: Cost,
    run: PendingCoverageCase<Op>,
    place: Option<usize>,
)
    requires
        is_in_order::<Op, Finalize>(before, 1),
        may_run::<Op, Finalize>(before, run),
        has_run::<Op, Evaluate, Cost, Mutate, Shrink, Finalize>(before, after, cost, run, place),
    ensures
        is_in_order::<Op, Finalize>(after, 0),
        counters_grow(before, after),
        place is None ==> after.pending == before.pending,
        place is Some ==> queues_rightly(before, after),
{
    let evaluation = choose|evaluation: CoverageEvaluation| #[trigger]
        comes_to::<Op, Evaluate, Cost, Mutate, Shrink, Finalize>(
            before,
            after,
            cost,
            run,
            place,
            evaluation,
        );
    runs_keep_the_tally::<Op, Evaluate, Cost, Mutate, Shrink, Finalize>(
        before,
        after,
        cost,
        run,
        place,
    );
    match place {
        None => {
            assert forall|id: u64| #[trigger]
                rewrites_of(after, id) <= after.mutations_per_entry by {
                assert(rewrites_of(before, id) <= before.mutations_per_entry);
            }
            assert forall|i: int| 0 <= i < after.corpus@.len() implies is_entry::<Op, Finalize>(
                after,
                i,
                #[trigger] after.corpus@[i],
            ) by {
                assert(is_entry::<Op, Finalize>(before, i, before.corpus@[i]));
            }
            assert forall|i: int| 0 <= i < after.pending@.len() implies (
            #[trigger] after.pending@[i]).parent is Some && may_wait::<Op, Finalize>(
                after,
                after.pending@[i],
            ) by {
                assert(before.pending@[i] == after.pending@[i]);
            }
        },
        Some(at) => {
            let rounds = choose|rounds: Seq<Round<Op>>| #[trigger]
                was_kept::<Op, Evaluate, Cost, Mutate, Shrink, Finalize>(
                    before,
                    after,
                    cost,
                    run,
                    at,
                    evaluation,
                    rounds,
                );
            let case = after.corpus@[at as int];
            let wanted = crate::coverage_guided::demand(
                evaluation.coverage@.difference(before.global@),
                evaluation.failed(),
            );
            smaller_cases_are_in_shape::<Op, Evaluate, Cost, Shrink, Finalize>(
                cost,
                wanted,
                run.ops@,
                evaluation,
                before.max_shrink_steps,
                rounds,
            );
            lemma_queued::<Op, Mutate, Finalize>(before, after, case);
            lemma_rewrites_stay_few::<Op, Finalize>(before, after, case);
            assert forall|i: int| 0 <= i < after.corpus@.len() implies is_entry::<Op, Finalize>(
                after,
                i,
                #[trigger] after.corpus@[i],
            ) by {
                if i < before.corpus@.len() {
                    assert(after.corpus@[i] == before.corpus@[i]);
                    assert(is_entry::<Op, Finalize>(before, i, before.corpus@[i]));
                    if let Some(parent) = before.corpus@[i].parent {
                        assert(after.corpus@[parent as int] == before.corpus@[parent as int]);
                    }
                } else if let Some(parent) = run.parent {
                    assert(after.corpus@[parent as int] == before.corpus@[parent as int]);
                }
            }
            assert forall|i: int| 0 <= i < after.pending@.len() implies (
            #[trigger] after.pending@[i]).parent is Some && may_wait::<Op, Finalize>(
                after,
                after.pending@[i],
            ) by {
                if i < before.pending@.len() {
                    assert(after.pending@.take(before.pending@.len() as int)[i]
                        == after.pending@[i]);
                    assert(before.pending@[i] == after.pending@[i]);
                    assert(may_wait::<Op, Finalize>(before, before.pending@[i]));
                }
            }
        },
    }
}

/// The counters after an entry was added.
proof fn lemma_kept<Op, Cost: CostModel<Op>>(
    before: Exploration<Op>,
    after: Exploration<Op>,
    case: CoveredCase<Op>,
    cost: Cost,
)
    requires
        kept(before, after, case, cost),
        before.next_id == before.corpus@.len(),
        before.global@ == covered(before.corpus@),
        before.stats.accepted == before.corpus@.len(),
        before.stats.failures == failing(before.corpus@),
        before.stats.coverage_ids == before.global@.len(),
    ensures
        after.corpus@.len() == before.corpus@.len() + 1,
        after.next_id == after.corpus@.len(),
        after.global@ == covered(after.corpus@),
        after.stats.accepted == after.corpus@.len(),
        after.stats.failures == failing(after.corpus@),
        after.stats.coverage_ids == after.global@.len(),
        before.stats.failures <= after.stats.failures,
        before.stats.coverage_ids <= after.stats.coverage_ids,
{
    assert(after.corpus@.drop_last() =~= before.corpus@);
    assert(after.corpus.len() == after.corpus@.len());
    lemma_failing_is_few(before.corpus@);
    vstd::arithmetic::div_mod::lemma_small_mod(
        (before.next_id + 1) as nat,
        0x1_0000_0000_0000_0000,
    );
    coverage_is_finite(after.global);
    vstd::set_lib::lemma_len_subset(before.global@, after.global@);
}

} // verus!
