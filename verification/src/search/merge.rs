//! What is learned from a case that was run.

use crate::candidate::{CandidateOrigin, OriginModel};
use crate::coverage::{
    ascending_ids, ascending_ids_are_unique, CoverageId, ExecutionFeedback, FeedbackModel,
};
use crate::execution::feedback_model;
use crate::order::{bytes_less, less_bytes};
use crate::reducer::state::{after_feedback, reset_reducer, BestModel, Feedback};
use crate::reduction::flat_case;
use crate::rng::{Active, ActiveModel};
use crate::score::{score_less, score_of, CaseCost, CaseCoverage, MinPathScore, SearchStats};
use crate::search::corpus::{
    best_is_best, best_place, count_nonzero, draw_spans, find_best, kept_draws, kept_sequences,
    nonzero_count, prune_corpus, pruned, seed_models, sequence_spans, CorpusSeed, SeedModel,
    MAX_CORPUS_LEN,
};
use crate::search::dictionary::{dictionaries_grow, merge_dictionary_values, with_values};
use crate::search::frequency::{counted, one_more};
use crate::search::state::{best_is_known, Goal, SearchModel, SearchState};
use crate::trace::{Trace, MAX_PREFIX_LEN};
use crate::weights::{
    improvement_credits, penalize_rejected, reward_improved, reward_preserved, Credit,
};
use vstd::prelude::*;

verus! {

/// What became of a case.
#[derive(Debug, Clone, Copy, PartialEq, Eq, Structural)]
pub enum Verdict {
    /// The harness did not accept it.
    Discarded,
    /// It covers nothing new.
    Known,
    /// It covers something new.
    Novel,
    /// It is accepted, but no better than the best one.
    Preserved,
    /// It is the best one from now on.
    Improved,
}

/// The coverage of a case that was accepted.
pub open spec fn run_coverage(active: ActiveModel, feedback: FeedbackModel, cost: CaseCost) -> CaseCoverage {
    CaseCoverage {
        case_cost: cost,
        feature_count: feedback.features.len() as usize,
        hit_count_weight: feedback.hit_count_weight,
        bytes_consumed: active.bytes_consumed,
    }
}

/// What an accepted case is minimized by.
pub open spec fn active_score(active: ActiveModel, feedback: FeedbackModel, cost: CaseCost) -> MinPathScore {
    score_of(run_coverage(active, feedback, cost), nonzero_count(active.trace) as usize)
}

/// How the weights of the reductions are to change with what became of a case of a minimization.
/// Only a reduction of the case that is the best one now earns or loses anything.
pub open spec fn earned(state: SearchModel, origin: OriginModel, result: Verdict) -> Seq<Credit> {
    match origin {
        OriginModel::CautiousReduction(id) => if state.goal == Goal::MinimizeCoverage && id.epoch
            == state.reducer.epoch {
            match result {
                Verdict::Discarded => seq![Credit { operation: id.operation, percent: 50 }],
                Verdict::Preserved => seq![Credit { operation: id.operation, percent: 115 }],
                Verdict::Improved => improvement_credits(id.operation),
                _ => Seq::empty(),
            }
        } else {
            Seq::empty()
        },
        _ => Seq::empty(),
    }
}

/// A case is better than the best one: by score; on a tie by the number of draws, then by bytes.
pub open spec fn improves_min_path(
    state: SearchModel,
    score: MinPathScore,
    active: ActiveModel,
) -> bool {
    match state.best {
        None => true,
        Some(best) => {
            ||| score_less(score, best)
            ||| score == best && match state.best_index {
                None => true,
                Some(index) => {
                    ||| index >= state.corpus.len()
                    ||| active.draws.len() < state.corpus[index as int].draws.len()
                    ||| active.draws.len() == state.corpus[index as int].draws.len() && bytes_less(
                        active.trace,
                        state.corpus[index as int].prefix,
                    )
                },
            }
        },
    }
}

/// What becomes of a case.
pub open spec fn verdict(
    state: SearchModel,
    active: ActiveModel,
    feedback: Option<FeedbackModel>,
    cost: CaseCost,
) -> Verdict {
    match feedback {
        None => Verdict::Discarded,
        Some(feedback) => match state.goal {
            Goal::MaximizeCoverage => if feedback.features.subset_of(state.global) {
                Verdict::Known
            } else {
                Verdict::Novel
            },
            Goal::MinimizeCoverage => if improves_min_path(
                state,
                active_score(active, feedback, cost),
                active,
            ) {
                Verdict::Improved
            } else {
                Verdict::Preserved
            },
        },
    }
}

/// The part of a path that is kept.
pub open spec fn kept_prefix(trace: Seq<u8>) -> Seq<u8> {
    if trace.len() > MAX_PREFIX_LEN {
        trace.take(MAX_PREFIX_LEN as int)
    } else {
        trace
    }
}

/// The identifiers that the first case covered and this one does not.
pub open spec fn removed_ids(state: SearchModel, features: Set<CoverageId>) -> Seq<CoverageId> {
    if state.goal == Goal::MinimizeCoverage && state.target_initialized {
        ascending_ids(state.target.difference(features))
    } else {
        Seq::empty()
    }
}

/// A case in the form in which it is kept.
pub open spec fn kept_case(
    state: SearchModel,
    active: ActiveModel,
    feedback: FeedbackModel,
    cost: CaseCost,
    energy: u64,
) -> SeedModel {
    SeedModel {
        case: flat_case(active.seed, kept_prefix(active.trace), active.zero_tail),
        seed: active.seed,
        prefix: kept_prefix(active.trace),
        draws: draw_spans(active.draws),
        scalars: active.scalars,
        sequences: sequence_spans(active.sequences),
        coverage: ascending_ids(feedback.features),
        removed: removed_ids(state, feedback.features),
        case_cost: cost,
        score: feedback.features.len() as usize,
        hit_count_weight: feedback.hit_count_weight,
        path_len: active.bytes_consumed,
        nonzero_bytes: nonzero_count(active.trace) as usize,
        energy,
    }
}

/// What the reducer works on.
pub open spec fn best_model(seed: SeedModel) -> BestModel {
    BestModel {
        seed: seed.seed,
        case: seed.case,
        prefix: seed.prefix,
        draws: seed.draws,
        scalars: seed.scalars,
        sequences: seed.sequences,
    }
}

/// One case is over.
pub open spec fn one_over(state: SearchModel) -> SearchModel {
    SearchModel {
        active_cases: if state.active_cases > 0 {
            (state.active_cases - 1) as u64
        } else {
            0
        },
        stats: SearchStats { executed: one_more(state.stats.executed), ..state.stats },
        ..state
    }
}

/// A search for coverage counts what a case covered.
pub open spec fn observed(state: SearchModel, feedback: FeedbackModel) -> SearchModel {
    SearchModel {
        dictionary: with_values(state.dictionary, feedback.dictionary),
        coverage_frequency: counted(
            state.coverage_frequency,
            ascending_ids(feedback.features),
        ),
        since_refresh: one_more(state.since_refresh),
        ..state
    }
}

/// A search for coverage keeps a case.
pub open spec fn explored(state: SearchModel, kept: SeedModel, features: Set<CoverageId>) -> SearchModel {
    let global = state.global.union(features);
    SearchModel {
        global,
        corpus: pruned(state.corpus.push(kept), false),
        stats: SearchStats {
            accepted: one_more(state.stats.accepted),
            coverage_ids: global.len() as u64,
            ..state.stats
        },
        ..state
    }
}

/// A minimization takes a case in: the first one says what is to be covered.
pub open spec fn targeted(state: SearchModel, feedback: FeedbackModel) -> SearchModel {
    SearchModel {
        dictionary: with_values(state.dictionary, feedback.dictionary),
        target: if state.target_initialized {
            state.target
        } else {
            feedback.features
        },
        target_initialized: true,
        removed_frequency: counted(
            state.removed_frequency,
            removed_ids(state, feedback.features),
        ),
        stats: SearchStats { accepted: one_more(state.stats.accepted), ..state.stats },
        ..state
    }
}

/// A minimization has a new best case: the reducer starts over with it.
pub open spec fn improved(
    state: SearchModel,
    kept: SeedModel,
    features: Set<CoverageId>,
) -> SearchModel {
    SearchModel {
        global: features,
        stats: SearchStats { coverage_ids: kept.score as u64, ..state.stats },
        corpus: state.corpus.push(kept),
        best: Some(kept.path_score()),
        best_index: Some(state.corpus.len() as usize),
        reducer: reset_reducer(state.reducer, state.corpus.len() as usize, best_model(kept)),
        ..state
    }
}

/// A minimization has one more case that is no better than the best one.
pub open spec fn preserved(state: SearchModel, kept: SeedModel, active: ActiveModel) -> SearchModel {
    SearchModel {
        corpus: state.corpus.push(kept),
        reducer: after_feedback(state.reducer, active.origin, Feedback::Preserved, state.weights),
        ..state
    }
}

/// A minimization drops its worst case if there are too many, and finds the best one again.
pub open spec fn tidied(state: SearchModel) -> SearchModel {
    if state.corpus.len() <= MAX_CORPUS_LEN {
        state
    } else {
        let corpus = pruned(state.corpus, true);
        SearchModel {
            corpus,
            best: Some(corpus[best_place(corpus)].path_score()),
            best_index: Some(best_place(corpus) as usize),
            ..state
        }
    }
}

/// The search after a case was run, without what its reduction earned.
pub open spec fn absorbed(
    state: SearchModel,
    active: ActiveModel,
    feedback: Option<FeedbackModel>,
    cost: CaseCost,
    energy: u64,
) -> SearchModel {
    let over = one_over(state);
    match feedback {
        None => match state.goal {
            Goal::MaximizeCoverage => over,
            Goal::MinimizeCoverage => SearchModel {
                reducer: after_feedback(
                    over.reducer,
                    active.origin,
                    Feedback::Rejected,
                    over.weights,
                ),
                ..over
            },
        },
        Some(found) => {
            let kept = kept_case(state, active, found, cost, energy);
            match verdict(state, active, feedback, cost) {
                Verdict::Novel => explored(observed(over, found), kept, found.features),
                Verdict::Improved => tidied(
                    improved(targeted(over, found), kept, found.features),
                ),
                Verdict::Preserved => tidied(preserved(targeted(over, found), kept, active)),
                _ => observed(over, found),
            }
        },
    }
}

/// The search after a case was run.
pub open spec fn merged(
    state: SearchModel,
    active: ActiveModel,
    feedback: Option<FeedbackModel>,
    cost: CaseCost,
    energy: u64,
) -> SearchModel {
    SearchModel {
        credits: state.credits + earned(
            state,
            active.origin,
            verdict(state, active, feedback, cost),
        ),
        ..absorbed(state, active, feedback, cost, energy)
    }
}

/// What the harness is told of a case that was run.
pub open spec fn reported(
    active: ActiveModel,
    feedback: Option<FeedbackModel>,
    cost: CaseCost,
) -> CaseCoverage {
    match feedback {
        Some(feedback) => run_coverage(active, feedback, cost),
        None => CaseCoverage {
            case_cost: CaseCost(0),
            feature_count: 0,
            hit_count_weight: 0,
            bytes_consumed: active.bytes_consumed,
        },
    }
}

/// A case that was run leaves a valid search valid.
pub proof fn merging_keeps_searches_valid(
    state: SearchModel,
    active: ActiveModel,
    feedback: Option<FeedbackModel>,
    cost: CaseCost,
    energy: u64,
)
    requires
        state.valid(),
    ensures
        merged(state, active, feedback, cost, energy).valid(),
{
    match feedback {
        None => {},
        Some(found) => {
            let over = one_over(state);
            dictionaries_grow(state.dictionary, found.dictionary);
            let kept = kept_case(state, active, found, cost, energy);
            assert(kept.path_score() == active_score(active, found, cost));
            match verdict(state, active, feedback, cost) {
                Verdict::Novel => {
                    crate::search::corpus::pruning_keeps_the_limit(state.corpus.push(kept), false);
                },
                Verdict::Improved => {
                    let grown = improved(targeted(over, found), kept, found.features);
                    lemma_push_keeps_best(state, kept, true);
                    lemma_tidied(grown);
                },
                Verdict::Preserved => {
                    let grown = preserved(targeted(over, found), kept, active);
                    lemma_push_keeps_best(state, kept, false);
                    lemma_tidied(grown);
                },
                _ => {},
            }
        },
    }
}

proof fn lemma_push_keeps_best(state: SearchModel, kept: SeedModel, better: bool)
    requires
        state.goal == Goal::MinimizeCoverage,
        best_is_known(state.goal, state.corpus, state.best, state.best_index),
        state.corpus.len() <= MAX_CORPUS_LEN,
        better ==> (state.best matches Some(best) ==> !score_less(best, kept.path_score())),
        !better ==> state.best is Some && !score_less(kept.path_score(), state.best->Some_0),
    ensures
        better ==> best_is_known(
            state.goal,
            state.corpus.push(kept),
            Some(kept.path_score()),
            Some(state.corpus.len() as usize),
        ),
        !better ==> best_is_known(
            state.goal,
            state.corpus.push(kept),
            state.best,
            state.best_index,
        ),
{
    let corpus = state.corpus.push(kept);
    let score = if better {
        kept.path_score()
    } else {
        state.best->Some_0
    };
    assert forall|i: int| 0 <= i < corpus.len() implies !score_less(
        (#[trigger] corpus[i]).path_score(),
        score,
    ) by {
        if i < state.corpus.len() {
            assert(corpus[i] == state.corpus[i]);
            crate::score::scores_are_ordered(
                corpus[i].path_score(),
                score,
                state.best->Some_0,
            );
            crate::score::scores_are_ordered(
                state.best->Some_0,
                corpus[i].path_score(),
                score,
            );
            crate::score::scores_are_ordered(state.best->Some_0, score, score);
        } else {
            crate::score::scores_are_ordered(kept.path_score(), score, score);
        }
    }
    if !better {
        assert(corpus[state.best_index->Some_0 as int] == state.corpus[state.best_index->Some_0 as int]);
    }
}

proof fn lemma_tidied(state: SearchModel)
    requires
        state.goal == Goal::MinimizeCoverage,
        0 < state.corpus.len() <= MAX_CORPUS_LEN + 1,
        best_is_known(state.goal, state.corpus, state.best, state.best_index),
    ensures
        best_is_known(
            tidied(state).goal,
            tidied(state).corpus,
            tidied(state).best,
            tidied(state).best_index,
        ),
        tidied(state).corpus.len() <= MAX_CORPUS_LEN,
{
    if state.corpus.len() > MAX_CORPUS_LEN {
        crate::search::corpus::worst_is_worst(state.corpus);
        let corpus = pruned(state.corpus, true);
        assert(corpus.len() == MAX_CORPUS_LEN);
        best_is_best(corpus);
    }
}

/// A search for coverage never forgets coverage, and knows what a case covered that was run.
pub proof fn coverage_is_kept(
    state: SearchModel,
    active: ActiveModel,
    feedback: Option<FeedbackModel>,
    cost: CaseCost,
    energy: u64,
)
    requires
        state.goal == Goal::MaximizeCoverage,
    ensures
        merged(state, active, feedback, cost, energy).global == match feedback {
            Some(feedback) => state.global.union(feedback.features),
            None => state.global,
        },
{
    match feedback {
        Some(feedback) => {
            if feedback.features.subset_of(state.global) {
                assert(state.global.union(feedback.features) =~= state.global);
            }
        },
        None => {},
    }
}

/// A search for coverage takes a case into its corpus if and only if it covers something new.
pub proof fn accepted_means_new(
    state: SearchModel,
    active: ActiveModel,
    feedback: FeedbackModel,
    cost: CaseCost,
    energy: u64,
)
    requires
        state.goal == Goal::MaximizeCoverage,
        state.stats.accepted < u64::MAX,
    ensures
        merged(state, active, Some(feedback), cost, energy).stats.accepted
            == state.stats.accepted + 1 <==> exists|id: CoverageId|
            feedback.features.contains(id) && !(#[trigger] state.global.contains(id)),
        merged(state, active, Some(feedback), cost, energy).stats.accepted == state.stats.accepted
            <==> feedback.features.subset_of(state.global),
{
    if !feedback.features.subset_of(state.global) {
        let id = choose|id: CoverageId|
            feedback.features.contains(id) && !state.global.contains(id);
        assert(!state.global.contains(id));
    }
}

/// A path that covers something new is kept, to be rewritten later, while there is room.
pub proof fn new_paths_are_kept(
    state: SearchModel,
    active: ActiveModel,
    feedback: FeedbackModel,
    cost: CaseCost,
    energy: u64,
)
    requires
        state.goal == Goal::MaximizeCoverage,
        !feedback.features.subset_of(state.global),
        state.corpus.len() < MAX_CORPUS_LEN,
    ensures
        ({
            let corpus = merged(state, active, Some(feedback), cost, energy).corpus;
            &&& corpus.drop_last() == state.corpus
            &&& corpus.last().seed == active.seed
            &&& corpus.last().prefix == kept_prefix(active.trace)
            &&& corpus.last().coverage == ascending_ids(feedback.features)
        }),
{
    let kept = kept_case(state, active, feedback, cost, energy);
    assert(state.corpus.push(kept).drop_last() =~= state.corpus);
}

/// A case that the harness does not accept teaches a search nothing about coverage: neither what
/// was covered, nor the corpus, nor the best case changes.
pub proof fn discarded_cases_teach_nothing(
    state: SearchModel,
    active: ActiveModel,
    cost: CaseCost,
    energy: u64,
)
    ensures
        ({
            let after = merged(state, active, None, cost, energy);
            &&& after.global == state.global
            &&& after.corpus == state.corpus
            &&& after.best == state.best
            &&& after.best_index == state.best_index
            &&& after.dictionary == state.dictionary
            &&& after.coverage_frequency == state.coverage_frequency
            &&& after.stats.accepted == state.stats.accepted
            &&& after.stats.executed == one_more(state.stats.executed)
        }),
{
}

/// The best score of a minimization never gets worse.
pub proof fn the_best_never_gets_worse(
    state: SearchModel,
    active: ActiveModel,
    feedback: Option<FeedbackModel>,
    cost: CaseCost,
    energy: u64,
)
    requires
        state.valid(),
        state.goal == Goal::MinimizeCoverage,
        state.best is Some,
    ensures
        merged(state, active, feedback, cost, energy).best is Some,
        !score_less(
            state.best->Some_0,
            merged(state, active, feedback, cost, energy).best->Some_0,
        ),
{
    match feedback {
        None => {
            crate::score::scores_are_ordered(
                state.best->Some_0,
                state.best->Some_0,
                state.best->Some_0,
            );
        },
        Some(found) => {
            let over = one_over(state);
            let kept = kept_case(state, active, found, cost, energy);
            let better = verdict(state, active, feedback, cost) == Verdict::Improved;
            lemma_push_keeps_best(state, kept, better);
            let grown = if better {
                improved(targeted(over, found), kept, found.features)
            } else {
                preserved(targeted(over, found), kept, active)
            };
            lemma_best_survives(grown);
            let new = tidied(grown).best->Some_0;
            crate::score::scores_are_ordered(state.best->Some_0, kept.path_score(), new);
            crate::score::scores_are_ordered(state.best->Some_0, new, new);
        },
    }
}

/// To tidy up keeps the best score.
proof fn lemma_best_survives(state: SearchModel)
    requires
        state.goal == Goal::MinimizeCoverage,
        0 < state.corpus.len() <= MAX_CORPUS_LEN + 1,
        best_is_known(state.goal, state.corpus, state.best, state.best_index),
    ensures
        tidied(state).best == state.best,
{
    if state.corpus.len() > MAX_CORPUS_LEN {
        let corpus = pruned(state.corpus, true);
        crate::search::corpus::worst_is_worst(state.corpus);
        best_is_best(state.corpus);
        crate::search::corpus::pruning_keeps_the_best(state.corpus);
        assert(corpus.len() == MAX_CORPUS_LEN);
        best_is_best(corpus);
        let i = choose|i: int|
            0 <= i < corpus.len() && (#[trigger] corpus[i]).path_score() == state.corpus[best_place(
                state.corpus,
            )].path_score();
        let old_best = state.best->Some_0;
        let index = state.best_index->Some_0 as int;
        let place = best_place(state.corpus);
        assert(!score_less(state.corpus[index].path_score(), state.corpus[place].path_score()));
        assert(!score_less(state.corpus[place].path_score(), old_best));
        crate::score::scores_are_ordered(old_best, state.corpus[place].path_score(), old_best);
        assert(corpus[i].path_score() == old_best);
        let new = best_place(corpus);
        assert(!score_less(corpus[i].path_score(), corpus[new].path_score()));
        assert(!score_less(corpus[new].path_score(), old_best)) by {
            let worst = crate::search::corpus::worst_place(state.corpus);
            if new == worst {
                assert(corpus[new] == state.corpus.last());
            } else {
                assert(corpus[new] == state.corpus[new]);
            }
        }
        crate::score::scores_are_ordered(old_best, corpus[new].path_score(), old_best);
    }
}

impl SearchState {
    /// Whether a case with this score is better than the best one.
    fn improves(&self, score: MinPathScore, active: &Active) -> (better: bool)
        ensures
            better == improves_min_path(self@, score, active@),
    {
        let best = match self.min_path_best {
            None => {
                return true;
            },
            Some(best) => best,
        };
        if score.is_less(&best) {
            return true;
        }
        proof {
            crate::score::scores_are_ordered(score, best, score);
        }
        if best.is_less(&score) {
            return false;
        }
        let index = match self.min_path_best_index {
            None => {
                return true;
            },
            Some(index) => index,
        };
        assert(self@.corpus.len() == self.corpus@.len());
        if index >= self.corpus.len() {
            return true;
        }
        let entry = &self.corpus[index];
        assert(self@.corpus[index as int] == self.corpus@[index as int]@);
        if active.draws.len() != entry.draws.len() {
            return active.draws.len() < entry.draws.len();
        }
        less_bytes(active.trace.as_slice(), entry.prefix.as_slice())
    }

    /// What becomes of a case. Nothing changes.
    pub fn judge(
        &self,
        active: &Active,
        feedback: &Option<ExecutionFeedback>,
        cost: CaseCost,
    ) -> (result: Verdict)
        ensures
            result == verdict(self@, active@, feedback_model(*feedback), cost),
    {
        match feedback {
            None => Verdict::Discarded,
            Some(feedback) => match self.goal {
                Goal::MaximizeCoverage => {
                    if self.global.is_superset(&feedback.features) {
                        Verdict::Known
                    } else {
                        Verdict::Novel
                    }
                },
                Goal::MinimizeCoverage => {
                    let score = MinPathScore::with_case_cost(
                        cost,
                        feedback.features.len(),
                        feedback.hit_count_weight,
                        active.bytes_consumed,
                        count_nonzero(&active.trace),
                    );
                    if self.improves(score, active) {
                        Verdict::Improved
                    } else {
                        Verdict::Preserved
                    }
                },
            },
        }
    }

    /// How the weights of the reductions are to change with what became of a case.
    fn earned_by(&self, origin: &CandidateOrigin, result: Verdict) -> (credits: Vec<Credit>)
        ensures
            credits@ == earned(self@, origin@, result),
    {
        let mut credits: Vec<Credit> = Vec::new();
        let minimizes: bool = match self.goal {
            Goal::MinimizeCoverage => true,
            Goal::MaximizeCoverage => false,
        };
        if let CandidateOrigin::CautiousReduction(id) = origin {
            if minimizes && id.epoch == self.cautious_reducer.epoch {
                match result {
                    Verdict::Discarded => credits.push(penalize_rejected(id.operation)),
                    Verdict::Preserved => credits.push(reward_preserved(id.operation)),
                    Verdict::Improved => {
                        credits = reward_improved(id.operation);
                    },
                    _ => {},
                }
            }
        }
        assert(credits@ =~= earned(self@, origin@, result));
        credits
    }

    /// The case in the form in which it is kept.
    fn kept(
        &self,
        active: &Active,
        feedback: &ExecutionFeedback,
        cost: CaseCost,
        energy: u64,
    ) -> (kept: CorpusSeed)
        ensures
            kept@ == kept_case(self@, active@, feedback@, cost, energy),
    {
        let mut prefix = crate::trace::copy_bytes(&active.trace);
        if prefix.len() > MAX_PREFIX_LEN {
            prefix.truncate(MAX_PREFIX_LEN);
        }
        assert(prefix@ =~= kept_prefix(active@.trace));
        let removed = match self.goal {
            Goal::MinimizeCoverage => if self.min_path_target_initialized {
                let rest = self.min_path_target.difference(&feedback.features);
                copy_ids(rest.iter(), Ghost(rest@))
            } else {
                Vec::new()
            },
            Goal::MaximizeCoverage => Vec::new(),
        };
        assert(removed@ =~= removed_ids(self@, feedback@.features));
        let coverage = copy_ids(feedback.features.iter(), Ghost(feedback@.features));
        let kept = CorpusSeed {
            case: Trace::from_raw_parts(
                active.seed,
                crate::trace::copy_bytes(&prefix),
                active.zero_tail,
            ),
            seed: active.seed,
            prefix,
            draws: kept_draws(&active.draws),
            scalars: crate::trace::copy_scalars(&active.scalars),
            sequences: kept_sequences(&active.sequences),
            coverage,
            removed,
            case_cost: cost,
            score: feedback.features.len(),
            hit_count_weight: feedback.hit_count_weight,
            path_len: active.bytes_consumed,
            nonzero_bytes: count_nonzero(&active.trace),
            energy,
        };
        assert(kept@ =~= kept_case(self@, active@, feedback@, cost, energy));
        kept
    }

    /// Learns from a case that was run. `energy` is what the case is worth as a parent.
    pub fn merge(
        &mut self,
        active: &Active,
        feedback: Option<ExecutionFeedback>,
        cost: CaseCost,
        energy: u64,
    ) -> (coverage: CaseCoverage)
        requires
            old(self)@.valid(),
        ensures
            final(self)@ == merged(old(self)@, active@, feedback_model(feedback), cost, energy),
            final(self)@.valid(),
            coverage == reported(active@, feedback_model(feedback), cost),
    {
        let ghost before = self@;
        let ghost found = feedback_model(feedback);
        proof {
            merging_keeps_searches_valid(before, active@, found, cost, energy);
        }
        let result = self.judge(active, &feedback, cost);
        let mut credits = self.earned_by(&active.origin, result);
        let coverage = self.absorb(active, feedback, result, cost, energy);
        self.credits.append(&mut credits);
        assert(self@ =~= merged(before, active@, found, cost, energy));
        coverage
    }

    /// Learns from a case that was run, but for what its reduction earned.
    fn absorb(
        &mut self,
        active: &Active,
        feedback: Option<ExecutionFeedback>,
        result: Verdict,
        cost: CaseCost,
        energy: u64,
    ) -> (coverage: CaseCoverage)
        requires
            old(self)@.valid(),
            result == verdict(old(self)@, active@, feedback_model(feedback), cost),
        ensures
            final(self)@ == absorbed(old(self)@, active@, feedback_model(feedback), cost, energy),
            coverage == reported(active@, feedback_model(feedback), cost),
    {
        let ghost before = self@;
        let ghost found = feedback_model(feedback);
        match feedback {
            None => {
                self.count_over();
                match self.goal {
                    Goal::MaximizeCoverage => {},
                    Goal::MinimizeCoverage => {
                        self.cautious_reducer.record_discard(&active.origin, &self.weights);
                    },
                }
                assert(self@ =~= absorbed(before, active@, found, cost, energy));
                CaseCoverage::with_cost(CaseCost::zero(), 0, 0, active.bytes_consumed)
            },
            Some(feedback) => {
                let coverage = CaseCoverage::with_cost(
                    cost,
                    feedback.features.len(),
                    feedback.hit_count_weight,
                    active.bytes_consumed,
                );
                let kept = self.kept(active, &feedback, cost, energy);
                self.count_over();
                match self.goal {
                    Goal::MaximizeCoverage => {
                        self.observe(feedback, result, kept, Ghost(before), active, cost, energy);
                    },
                    Goal::MinimizeCoverage => {
                        self.take_in(feedback, result, kept, Ghost(before), active, cost, energy);
                    },
                }
                coverage
            },
        }
    }

    fn count_over(&mut self)
        ensures
            final(self)@ == one_over(old(self)@),
            final(self).goal == old(self).goal,
    {
        self.stats.executed = self.stats.executed.saturating_add(1);
        self.active_cases = self.active_cases.saturating_sub(1);
        assert(self@ =~= one_over(old(self)@));
    }

    /// A search for coverage learns from a case that was accepted.
    fn observe(
        &mut self,
        feedback: ExecutionFeedback,
        result: Verdict,
        kept: CorpusSeed,
        Ghost(before): Ghost<SearchModel>,
        active: &Active,
        cost: CaseCost,
        energy: u64,
    )
        requires
            before.valid(),
            old(self)@ == one_over(before),
            before.goal == Goal::MaximizeCoverage,
            result == verdict(before, active@, Some(feedback@), cost),
            kept@ == kept_case(before, active@, feedback@, cost, energy),
        ensures
            final(self)@ == absorbed(before, active@, Some(feedback@), cost, energy),
    {
        let ids = copy_ids(feedback.features.iter(), Ghost(feedback@.features));
        self.coverage_frequency.count(&ids);
        self.executions_since_refresh = self.executions_since_refresh.saturating_add(1);
        let ghost features = feedback@.features;
        let ghost model = feedback@;
        merge_dictionary_values(&mut self.dictionary, feedback.dictionary);
        let ghost seen = observed(one_over(before), model);
        assert(self@ =~= seen);
        match result {
            Verdict::Novel => {
                proof {
                    lemma_ids_are_features(features, ids@);
                }
                self.global.extend(ids);
                self.stats.accepted = self.stats.accepted.saturating_add(1);
                self.stats.coverage_ids = self.global.len() as u64;
                let ghost corpus = seed_models(self.corpus@);
                let ghost model = kept@;
                self.corpus.push(kept);
                assert(seed_models(self.corpus@) =~= corpus.push(model));
                let _dropped = prune_corpus(&mut self.corpus, false);
                assert(self@ =~= explored(seen, model, features));
            },
            _ => {},
        }
    }

    /// A minimization learns from a case that was accepted.
    fn take_in(
        &mut self,
        feedback: ExecutionFeedback,
        result: Verdict,
        kept: CorpusSeed,
        Ghost(before): Ghost<SearchModel>,
        active: &Active,
        cost: CaseCost,
        energy: u64,
    )
        requires
            before.valid(),
            old(self)@ == one_over(before),
            before.goal == Goal::MinimizeCoverage,
            result == verdict(before, active@, Some(feedback@), cost),
            kept@ == kept_case(before, active@, feedback@, cost, energy),
        ensures
            final(self)@ == absorbed(before, active@, Some(feedback@), cost, energy),
    {
        let ghost over = one_over(before);
        let ghost found = feedback@;
        if !self.min_path_target_initialized {
            self.min_path_target = feedback.features.clone();
            self.min_path_target_initialized = true;
        }
        assert(kept.removed@ == kept@.removed);
        self.min_path_removed_frequency.count(&kept.removed);
        self.stats.accepted = self.stats.accepted.saturating_add(1);
        merge_dictionary_values(&mut self.dictionary, feedback.dictionary);
        let ghost aimed = targeted(over, found);
        assert(self@ =~= aimed);
        let place: usize = self.corpus.len();
        assert(aimed.corpus.len() == place);
        let ghost corpus = seed_models(self.corpus@);
        let ghost model = kept@;
        match result {
            Verdict::Improved => {
                self.global = feedback.features;
                self.stats.coverage_ids = kept.score as u64;
                self.min_path_best = Some(kept.path_score());
                self.min_path_best_index = Some(place);
                self.cautious_reducer.reset(
                    place,
                    kept.seed,
                    &kept.case,
                    &kept.prefix,
                    &kept.draws,
                    &kept.scalars,
                    &kept.sequences,
                );
                self.corpus.push(kept);
                assert(seed_models(self.corpus@) =~= corpus.push(model));
                assert(self@ =~= improved(aimed, model, found.features));
            },
            _ => {
                self.cautious_reducer.record_preserved(&active.origin, &self.weights);
                self.corpus.push(kept);
                assert(seed_models(self.corpus@) =~= corpus.push(model));
                assert(self@ =~= preserved(aimed, model, active@));
            },
        }
        self.tidy();
    }

    /// Drops the worst case if there are too many, and finds the best one again.
    fn tidy(&mut self)
        requires
            0 < old(self)@.corpus.len() <= MAX_CORPUS_LEN + 1,
        ensures
            final(self)@ == tidied(old(self)@),
    {
        let ghost before = self@;
        assert(before.corpus.len() == self.corpus@.len());
        match prune_corpus(&mut self.corpus, true) {
            None => {},
            Some(_place) => {
                proof {
                    crate::search::corpus::worst_is_worst(before.corpus);
                    assert(seed_models(self.corpus@).len() == MAX_CORPUS_LEN);
                    best_is_best(seed_models(self.corpus@));
                }
                match find_best(&self.corpus) {
                    Some(place) => {
                        assert(seed_models(self.corpus@)[place as int]
                            == self.corpus@[place as int]@);
                        self.min_path_best = Some(self.corpus[place].path_score());
                        self.min_path_best_index = Some(place);
                    },
                    None => {
                        self.min_path_best = None;
                        self.min_path_best_index = None;
                    },
                }
            },
        }
        assert(self@ =~= tidied(before));
    }
}

proof fn lemma_ids_are_features(features: Set<CoverageId>, ids: Seq<CoverageId>)
    requires
        ids == ascending_ids(features),
        exists|list: Seq<CoverageId>|
            crate::coverage::strictly_ascending(list) && #[trigger] list.to_set() == features,
    ensures
        ids.to_set() == features,
{
    let list = choose|list: Seq<CoverageId>|
        crate::coverage::strictly_ascending(list) && #[trigger] list.to_set() == features;
    ascending_ids_are_unique(list, features);
}

/// A copy of the identifiers of a set.
fn copy_ids(ids: &Vec<CoverageId>, Ghost(set): Ghost<Set<CoverageId>>) -> (copy: Vec<CoverageId>)
    requires
        crate::coverage::strictly_ascending(ids@),
        ids@.to_set() == set,
    ensures
        copy@ == ids@,
        copy@ == ascending_ids(set),
        crate::coverage::strictly_ascending(copy@) && copy@.to_set() == set,
{
    proof {
        ascending_ids_are_unique(ids@, set);
    }
    let mut copy: Vec<CoverageId> = Vec::with_capacity(ids.len());
    let mut i: usize = 0;
    while i < ids.len()
        invariant
            i <= ids@.len(),
            copy@ == ids@.take(i as int),
        decreases ids@.len() - i,
    {
        copy.push(ids[i]);
        assert(copy@ =~= ids@.take(i + 1));
        i += 1;
    }
    assert(copy@ =~= ids@);
    copy
}

} // verus!
