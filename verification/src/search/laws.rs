//! Laws of the search: what a case that was run leaves behind, and what may come next.

use super::corpus::{nonzero_count, MAX_CORPUS_LEN};
use super::merge::{active_score, earned, kept_case, merged, reported, verdict, Verdict};
use super::plan::{chosen, fallback_seed, one_running, seed_used, PlanModel};
use super::state::{Goal, SearchModel};
use crate::candidate::OriginModel;
use crate::coverage::{ascending_ids, FeedbackModel};
use crate::order::bytes_less;
use crate::rng::ActiveModel;
use crate::score::{score_less, CaseCost, MinPathScore};
use crate::trace::MAX_PREFIX_LEN;
use vstd::prelude::*;

verus! {

/// The first thing in which two scores differ decides: the cost, then the features, the hits, the
/// bytes, and the bytes that are not zero. Less is better, and equal scores are equally good.
pub proof fn the_first_difference_decides(a: MinPathScore, b: MinPathScore)
    ensures
        a.case_cost.0 < b.case_cost.0 ==> score_less(a, b) && !score_less(b, a),
        a.case_cost == b.case_cost && a.features < b.features ==> score_less(a, b) && !score_less(
            b,
            a,
        ),
        a.case_cost == b.case_cost && a.features == b.features && a.hit_count_weight
            < b.hit_count_weight ==> score_less(a, b) && !score_less(b, a),
        a.case_cost == b.case_cost && a.features == b.features && a.hit_count_weight
            == b.hit_count_weight && a.bytes < b.bytes ==> score_less(a, b) && !score_less(b, a),
        a.case_cost == b.case_cost && a.features == b.features && a.hit_count_weight
            == b.hit_count_weight && a.bytes == b.bytes && a.nonzero_bytes < b.nonzero_bytes
            ==> score_less(a, b) && !score_less(b, a),
        a == b ==> !score_less(a, b),
{
}

/// A case that is kept is the case that was run: its bytes are the first ones that were drawn, its
/// coverage is what was covered, and its spans lie where they were drawn.
pub proof fn kept_cases_are_those_that_ran(
    state: SearchModel,
    active: ActiveModel,
    feedback: FeedbackModel,
    cost: CaseCost,
    energy: u64,
    i: int,
)
    requires
        0 <= i < active.draws.len(),
        active.draws[i].start + active.draws[i].len <= usize::MAX,
        feedback.features.len() <= usize::MAX,
        active.trace.len() <= usize::MAX,
    ensures
        ({
            let kept = kept_case(state, active, feedback, cost, energy);
            let held = if active.trace.len() <= MAX_PREFIX_LEN {
                active.trace.len() as int
            } else {
                MAX_PREFIX_LEN as int
            };
            &&& kept.prefix == active.trace.subrange(0, held)
            &&& kept.case.bytes() == kept.prefix
            &&& kept.case.seed == active.seed
            &&& kept.seed == active.seed
            &&& kept.case.zero_tail == active.zero_tail
            &&& kept.draws.len() == active.draws.len()
            &&& kept.draws[i].start == active.draws[i].start
            &&& kept.draws[i].end - kept.draws[i].start == active.draws[i].len
            &&& kept.scalars == active.scalars
            &&& kept.sequences.len() == active.sequences.len()
            &&& kept.coverage == ascending_ids(feedback.features)
            &&& kept.energy == energy
            &&& kept.path_score() == (MinPathScore {
                case_cost: cost,
                features: feedback.features.len() as usize,
                hit_count_weight: feedback.hit_count_weight,
                bytes: active.bytes_consumed,
                nonzero_bytes: nonzero_count(active.trace) as usize,
            })
        }),
{
    let held = if active.trace.len() <= MAX_PREFIX_LEN {
        active.trace.len() as int
    } else {
        MAX_PREFIX_LEN as int
    };
    assert(kept_case(state, active, feedback, cost, energy).prefix =~= active.trace.subrange(
        0,
        held,
    ));
}

/// The spans of the items of a kept sequence lie where they were drawn.
pub proof fn kept_sequences_are_those_that_ran(
    state: SearchModel,
    active: ActiveModel,
    feedback: FeedbackModel,
    cost: CaseCost,
    energy: u64,
    s: int,
    i: int,
)
    requires
        0 <= s < active.sequences.len(),
        0 <= i < active.sequences[s].items.len(),
        active.sequences[s].items[i].start + active.sequences[s].items[i].len <= usize::MAX,
    ensures
        ({
            let kept = kept_case(state, active, feedback, cost, energy).sequences[s];
            let drawn = active.sequences[s];
            &&& kept.length_start == drawn.length_start
            &&& kept.length_len == drawn.length_len
            &&& kept.items.len() == drawn.items.len()
            &&& kept.items[i].start == drawn.items[i].start
            &&& kept.items[i].end - kept.items[i].start == drawn.items[i].len
        }),
{
}

/// What a search for coverage has seen it knows: a case that covers no more than one that was
/// merged is known from then on.
pub proof fn merged_coverage_is_known(
    state: SearchModel,
    active: ActiveModel,
    feedback: FeedbackModel,
    cost: CaseCost,
    energy: u64,
    later: ActiveModel,
    covered: FeedbackModel,
    later_cost: CaseCost,
)
    requires
        state.goal == Goal::MaximizeCoverage,
        covered.features.subset_of(feedback.features),
    ensures
        verdict(
            merged(state, active, Some(feedback), cost, energy),
            later,
            Some(covered),
            later_cost,
        ) == Verdict::Known,
{
    crate::search::merge::coverage_is_kept(state, active, Some(feedback), cost, energy);
}

/// A case improves a minimization only once: right after it was taken as the best one, the same
/// run is no improvement.
pub proof fn the_best_does_not_improve_itself(
    state: SearchModel,
    active: ActiveModel,
    feedback: FeedbackModel,
    cost: CaseCost,
    energy: u64,
)
    requires
        state.valid(),
        state.goal == Goal::MinimizeCoverage,
        state.corpus.len() < MAX_CORPUS_LEN,
        active.trace.len() <= MAX_PREFIX_LEN,
        verdict(state, active, Some(feedback), cost) == Verdict::Improved,
    ensures
        ({
            let after = merged(state, active, Some(feedback), cost, energy);
            &&& after.best == Some(active_score(active, feedback, cost))
            &&& after.best_index == Some(state.corpus.len() as usize)
            &&& after.corpus.len() == state.corpus.len() + 1
            &&& verdict(after, active, Some(feedback), cost) == Verdict::Preserved
        }),
{
    let score = active_score(active, feedback, cost);
    crate::score::scores_are_ordered(score, score, score);
    lemma_bytes_irreflexive(active.trace);
}

/// No bytes come before themselves.
proof fn lemma_bytes_irreflexive(bytes: Seq<u8>)
    ensures
        !bytes_less(bytes, bytes),
{
    crate::order::lemma_bytes_less(bytes, bytes);
}

/// Every case that is over is counted, and counted as accepted exactly if it was kept; one case
/// less is running.
pub proof fn cases_are_counted(
    state: SearchModel,
    active: ActiveModel,
    feedback: Option<FeedbackModel>,
    cost: CaseCost,
    energy: u64,
)
    requires
        state.stats.executed < u64::MAX,
        state.stats.accepted < u64::MAX,
    ensures
        ({
            let after = merged(state, active, feedback, cost, energy);
            let result = verdict(state, active, feedback, cost);
            let kept = result == Verdict::Novel || result == Verdict::Improved || result
                == Verdict::Preserved;
            &&& after.stats.executed == state.stats.executed + 1
            &&& kept ==> after.stats.accepted == state.stats.accepted + 1
            &&& !kept ==> after.stats.accepted == state.stats.accepted && after.corpus
                == state.corpus
            &&& after.stats.generated == state.stats.generated
            &&& after.stats.mutated == state.stats.mutated
            &&& state.active_cases > 0 ==> after.active_cases == state.active_cases - 1
            &&& state.active_cases == 0 ==> after.active_cases == 0
            &&& after.pending == state.pending
            &&& after.next == state.next
            &&& after.goal == state.goal
            &&& after.options == state.options
        }),
{
}

/// Only a reduction of the present best case earns or loses anything: it loses half its weight if
/// the case was discarded, earns a little if it was accepted, and most if it is an improvement. A
/// move of several scalars earns for the moves of fewer as well.
pub proof fn reductions_earn_by_their_result(
    state: SearchModel,
    origin: OriginModel,
    result: Verdict,
)
    ensures
        ({
            let credits = earned(state, origin, result);
            let current = state.goal == Goal::MinimizeCoverage && (
            origin matches OriginModel::CautiousReduction(id) && id.epoch == state.reducer.epoch);
            &&& !current ==> credits.len() == 0
            &&& current && result == Verdict::Discarded ==> credits.len() == 1
                && credits[0].percent == 50
            &&& current && result == Verdict::Preserved ==> credits.len() == 1
                && credits[0].percent == 115
            &&& current && result == Verdict::Improved ==> credits.len() >= 1 && forall|k: int|
                0 <= k < credits.len() ==> (#[trigger] credits[k]).percent > 115
            &&& credits.len() > 0 ==> (origin matches OriginModel::CautiousReduction(id)
                && credits[0].operation == id.operation && (result == Verdict::Improved
                ==> credits[0].percent == 300))
            &&& result == Verdict::Known || result == Verdict::Novel ==> credits.len() == 0
        }),
{
}

/// The seeds of fresh cases count up, around their 64 bits.
pub proof fn fresh_seeds_count_up(state: SearchModel)
    ensures
        fallback_seed(seed_used(state)) == if fallback_seed(state) == u64::MAX {
            0
        } else {
            fallback_seed(state) + 1
        },
        state.next == 0 ==> fallback_seed(state) == state.base_seed,
        seed_used(state).corpus == state.corpus,
        seed_used(state).seed_step == state.seed_step,
{
}

/// Cases that were handed in come first, in their order. A search without a corpus that starts
/// fresh cases starts one, and so does every search that does so at each step that its ratio
/// divides; at the others the corpus is used.
pub proof fn fresh_cases_come_at_their_ratio(
    state: SearchModel,
    after: SearchModel,
    parent: Option<usize>,
    plan: PlanModel,
    ask: bool,
)
    requires
        chosen(state, after, parent, plan, ask),
        state.seed_step < u64::MAX,
        state.seed_ratio >= 1,
    ensures
        state.pending.len() > 0 ==> {
            &&& plan matches PlanModel::Ready(case) && case.case == state.pending[0]
                && !case.mutated
            &&& after.pending.len() == state.pending.len() - 1
            &&& after.seed_step == state.seed_step
        },
        state.pending.len() == 0 && state.fresh_roots && (state.corpus.len() == 0 || (
        state.seed_step + 1) % state.seed_ratio as int == 0) ==> {
            &&& plan matches PlanModel::Ready(case) && case.case.seed == fallback_seed(state)
                && case.case.bytes().len() == 0 && !case.case.zero_tail && !case.mutated
            &&& fallback_seed(after) != fallback_seed(state)
        },
        state.pending.len() == 0 && state.corpus.len() == 0 && !state.fresh_roots ==> plan
            == PlanModel::Nothing && after == state,
        state.pending.len() == 0 && state.corpus.len() > 0 && state.fresh_roots ==> (
        plan is Ready && (state.seed_step + 1) % state.seed_ratio as int == 0 ==> after.seed_step
            == state.seed_step + 1),
{
    if state.pending.len() == 0 && state.fresh_roots && (state.corpus.len() == 0 || (
    state.seed_step + 1) % state.seed_ratio as int == 0) {
        let root = crate::trace::NodeModel { events: Seq::empty() };
        assert(crate::trace::node_bytes(root) =~= Seq::empty());
    }
}

/// A case that is started is counted once, as mutated if it is.
pub proof fn started_cases_are_counted(state: SearchModel, mutated: bool)
    requires
        state.active_cases < u64::MAX,
        state.stats.generated < u64::MAX,
        state.stats.mutated < u64::MAX,
    ensures
        ({
            let after = one_running(state, mutated);
            &&& after.active_cases == state.active_cases + 1
            &&& after.stats.generated == state.stats.generated + 1
            &&& after.stats.mutated - state.stats.mutated == if mutated {
                1int
            } else {
                0
            }
            &&& after.stats.executed == state.stats.executed
            &&& after.stats.accepted == state.stats.accepted
            &&& after.corpus == state.corpus
        }),
{
}

/// What the harness is told of an accepted case is what was measured; of a discarded one, the
/// bytes that it drew and nothing else.
pub proof fn reports_tell_what_was_measured(
    active: ActiveModel,
    feedback: FeedbackModel,
    cost: CaseCost,
)
    ensures
        reported(active, Some(feedback), cost).case_cost == cost,
        reported(active, Some(feedback), cost).feature_count == feedback.features.len() as usize,
        reported(active, Some(feedback), cost).hit_count_weight == feedback.hit_count_weight,
        reported(active, Some(feedback), cost).bytes_consumed == active.bytes_consumed,
        reported(active, None, cost).case_cost.0 == 0,
        reported(active, None, cost).feature_count == 0,
        reported(active, None, cost).hit_count_weight == 0,
        reported(active, None, cost).bytes_consumed == active.bytes_consumed,
{
}

} // verus!
