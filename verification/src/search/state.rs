//! What a search knows.

use crate::coverage::{CoverageId, CoverageSet};
use crate::mutation::byte_lists;
use crate::random::seeded;
use crate::reducer::state::{idle_reducer, CautiousReducer, ReducerModel};
use crate::score::{score_less, CautiousOptions, MinPathScore, SearchStats};
use crate::search::corpus::{seed_models, CorpusSeed, SeedModel, MAX_CORPUS_LEN};
use crate::search::dictionary::is_dictionary;
use crate::search::frequency::{frequency, no_counts, Frequencies};
use crate::trace::{Trace, TraceModel};
use crate::weights::{Credit, Weights, WeightsModel};
use rand::rngs::SmallRng;
use std::collections::VecDeque;
use vstd::prelude::*;

verus! {

/// How many rewrites a search for coverage stacks, unless told otherwise.
pub const DEFAULT_MUTATE_DEPTH: usize = 5;

/// How many rewrites a minimization stacks, unless told otherwise.
pub const DEFAULT_CAUTIOUS_MUTATE_DEPTH: usize = 1;

/// Every so many cases a fresh one is tried, unless told otherwise.
pub const DEFAULT_SEED_RATIO: u64 = 8;

/// After so many executions a search for coverage weighs its cases anew.
pub const CURIOUS_ENERGY_REFRESH_INTERVAL: u64 = 64;

/// After so many executions a minimization weighs its cases anew.
pub const CAUTIOUS_ENERGY_REFRESH_INTERVAL: u64 = 1024;

/// What the seed of the scheduler is mixed with.
pub const SCHEDULER_SEED: u64 = 0xD3A0_51C0_FFEE;

/// What a search is after.
#[derive(Debug, Clone, Copy, PartialEq, Eq, Structural)]
pub enum Goal {
    /// As much coverage as there is.
    MaximizeCoverage,
    /// The smallest case that the harness accepts.
    MinimizeCoverage,
}

/// Where candidates come from.
#[derive(Debug, Clone, Copy, PartialEq, Eq, Structural)]
pub enum MutationSource {
    /// The reductions of the best case.
    SemanticReductions,
    /// Random rewrites that look for coverage.
    CoverageHavoc,
    /// Random rewrites that make a case smaller.
    MinimizingHavoc,
    /// A source of the caller's own.
    Custom,
}

/// The state of a search.
pub struct SearchState {
    pub goal: Goal,
    pub base_seed: u64,
    pub next: u64,
    pub scheduler: SmallRng,
    pub global: CoverageSet,
    pub coverage_frequency: Frequencies,
    pub min_path_removed_frequency: Frequencies,
    pub min_path_target: CoverageSet,
    pub min_path_target_initialized: bool,
    pub min_path_best: Option<MinPathScore>,
    pub min_path_best_index: Option<usize>,
    pub corpus: Vec<CorpusSeed>,
    pub pending_cases: VecDeque<Trace>,
    pub candidate_sources: Vec<MutationSource>,
    pub fresh_roots: bool,
    pub cautious_reducer: CautiousReducer,
    pub weights: Weights,
    pub dictionary: Vec<Vec<u8>>,
    pub cautious_options: CautiousOptions,
    pub executions_since_refresh: u64,
    pub mutate_depth: usize,
    pub seed_ratio: u64,
    pub seed_step: u64,
    pub active_cases: u64,
    /// How the weights of the reductions are to change.
    pub credits: Vec<Credit>,
    pub stats: SearchStats,
}

/// The state of a search, by contents. What the scheduler will draw is left open.
#[verifier::ext_equal]
pub struct SearchModel {
    pub goal: Goal,
    pub base_seed: u64,
    pub next: u64,
    /// The coverage that was found, or that of the best case.
    pub global: Set<CoverageId>,
    pub coverage_frequency: Map<u64, u64>,
    pub removed_frequency: Map<u64, u64>,
    /// The coverage of the first case of a minimization.
    pub target: Set<CoverageId>,
    pub target_initialized: bool,
    pub best: Option<MinPathScore>,
    pub best_index: Option<usize>,
    pub corpus: Seq<SeedModel>,
    pub pending: Seq<TraceModel>,
    pub sources: Seq<MutationSource>,
    pub fresh_roots: bool,
    pub reducer: ReducerModel,
    pub weights: WeightsModel,
    pub dictionary: Seq<Seq<u8>>,
    pub options: CautiousOptions,
    pub since_refresh: u64,
    pub mutate_depth: usize,
    pub seed_ratio: u64,
    pub seed_step: u64,
    pub active_cases: u64,
    pub credits: Seq<Credit>,
    pub stats: SearchStats,
}

/// The contents of the cases.
pub open spec fn case_models(cases: Seq<Trace>) -> Seq<TraceModel> {
    cases.map_values(|case: Trace| case@)
}

impl View for SearchState {
    type V = SearchModel;

    open spec fn view(&self) -> SearchModel {
        SearchModel {
            goal: self.goal,
            base_seed: self.base_seed,
            next: self.next,
            global: self.global@,
            coverage_frequency: self.coverage_frequency@,
            removed_frequency: self.min_path_removed_frequency@,
            target: self.min_path_target@,
            target_initialized: self.min_path_target_initialized,
            best: self.min_path_best,
            best_index: self.min_path_best_index,
            corpus: seed_models(self.corpus@),
            pending: case_models(self.pending_cases@),
            sources: self.candidate_sources@,
            fresh_roots: self.fresh_roots,
            reducer: self.cautious_reducer@,
            weights: self.weights@,
            dictionary: byte_lists(self.dictionary@),
            options: self.cautious_options,
            since_refresh: self.executions_since_refresh,
            mutate_depth: self.mutate_depth,
            seed_ratio: self.seed_ratio,
            seed_step: self.seed_step,
            active_cases: self.active_cases,
            credits: self.credits@,
            stats: self.stats,
        }
    }
}

/// The best score of a minimization is that of a case of the corpus, and no case has a better one.
/// A search for coverage has no best case.
pub open spec fn best_is_known(
    goal: Goal,
    corpus: Seq<SeedModel>,
    best: Option<MinPathScore>,
    best_index: Option<usize>,
) -> bool {
    match (best, best_index) {
        (Some(score), Some(index)) => {
            &&& goal == Goal::MinimizeCoverage
            &&& index < corpus.len()
            &&& corpus[index as int].path_score() == score
            &&& forall|i: int|
                0 <= i < corpus.len() ==> !score_less((#[trigger] corpus[i]).path_score(), score)
        },
        (None, None) => goal == Goal::MinimizeCoverage ==> corpus.len() == 0,
        _ => false,
    }
}

impl SearchModel {
    /// What holds of every search.
    pub open spec fn valid(self) -> bool {
        &&& self.weights.wf()
        &&& 1 <= self.mutate_depth < usize::MAX
        &&& self.seed_ratio >= 1
        &&& self.corpus.len() <= MAX_CORPUS_LEN
        &&& is_dictionary(self.dictionary)
        &&& best_is_known(self.goal, self.corpus, self.best, self.best_index)
    }
}

/// Where the candidates of a goal come from, unless told otherwise.
pub open spec fn default_sources(goal: Goal) -> Seq<MutationSource> {
    match goal {
        Goal::MaximizeCoverage => seq![MutationSource::CoverageHavoc],
        Goal::MinimizeCoverage => seq![
            MutationSource::SemanticReductions,
            MutationSource::MinimizingHavoc,
        ],
    }
}

/// A search that has run nothing.
pub open spec fn fresh_search(goal: Goal) -> SearchModel {
    SearchModel {
        goal,
        base_seed: 0,
        next: 0,
        global: Set::empty(),
        coverage_frequency: no_counts(),
        removed_frequency: no_counts(),
        target: Set::empty(),
        target_initialized: false,
        best: None,
        best_index: None,
        corpus: Seq::empty(),
        pending: Seq::empty(),
        sources: default_sources(goal),
        fresh_roots: goal == Goal::MaximizeCoverage,
        reducer: idle_reducer(),
        weights: WeightsModel::units(),
        dictionary: Seq::empty(),
        options: CautiousOptions::defaults(),
        since_refresh: 0,
        mutate_depth: if goal == Goal::MaximizeCoverage {
            DEFAULT_MUTATE_DEPTH
        } else {
            DEFAULT_CAUTIOUS_MUTATE_DEPTH
        },
        seed_ratio: DEFAULT_SEED_RATIO,
        seed_step: 0,
        active_cases: 0,
        credits: Seq::empty(),
        stats: SearchStats { generated: 0, executed: 0, accepted: 0, coverage_ids: 0, mutated: 0 },
    }
}

/// A search that has run nothing is valid.
pub proof fn fresh_searches_are_valid(goal: Goal)
    ensures
        fresh_search(goal).valid(),
{
}

impl SearchState {
    /// A search that has run nothing.
    pub fn new(goal: Goal) -> (state: SearchState)
        ensures
            state@ == fresh_search(goal),
            state@.valid(),
    {
        let mut candidate_sources: Vec<MutationSource> = Vec::new();
        match goal {
            Goal::MaximizeCoverage => {
                candidate_sources.push(MutationSource::CoverageHavoc);
            },
            Goal::MinimizeCoverage => {
                candidate_sources.push(MutationSource::SemanticReductions);
                candidate_sources.push(MutationSource::MinimizingHavoc);
            },
        }
        let curious: bool = match goal {
            Goal::MaximizeCoverage => true,
            Goal::MinimizeCoverage => false,
        };
        let state = SearchState {
            goal,
            base_seed: 0,
            next: 0,
            scheduler: seeded(SCHEDULER_SEED),
            global: CoverageSet::new(),
            coverage_frequency: Frequencies::new(),
            min_path_removed_frequency: Frequencies::new(),
            min_path_target: CoverageSet::new(),
            min_path_target_initialized: false,
            min_path_best: None,
            min_path_best_index: None,
            corpus: Vec::new(),
            pending_cases: VecDeque::new(),
            candidate_sources,
            fresh_roots: curious,
            cautious_reducer: CautiousReducer::new(),
            weights: Weights::new(),
            dictionary: Vec::new(),
            cautious_options: CautiousOptions::new(),
            executions_since_refresh: 0,
            mutate_depth: if curious {
                DEFAULT_MUTATE_DEPTH
            } else {
                DEFAULT_CAUTIOUS_MUTATE_DEPTH
            },
            seed_ratio: DEFAULT_SEED_RATIO,
            seed_step: 0,
            active_cases: 0,
            credits: Vec::new(),
            stats: SearchStats {
                generated: 0,
                executed: 0,
                accepted: 0,
                coverage_ids: 0,
                mutated: 0,
            },
        };
        proof {
            assert(state@.sources =~= default_sources(goal));
            assert(state@ =~= fresh_search(goal));
        }
        state
    }

    /// How often an identifier was covered.
    pub fn feature_frequency(&self, id: CoverageId) -> (count: u64)
        ensures
            count == frequency(self@.coverage_frequency, id),
    {
        self.coverage_frequency.of(id)
    }

    /// How often a case of the corpus lacked an identifier that the first case had.
    pub fn removed_frequency(&self, id: CoverageId) -> (count: u64)
        ensures
            count == frequency(self@.removed_frequency, id),
    {
        self.min_path_removed_frequency.of(id)
    }

    /// Takes out how the weights of the reductions are to change, in the order in which it was
    /// earned.
    pub fn take_credits(&mut self) -> (credits: Vec<Credit>)
        ensures
            credits@ == old(self)@.credits,
            final(self)@ == (SearchModel { credits: Seq::empty(), ..old(self)@ }),
    {
        let ghost before = self@;
        let mut credits: Vec<Credit> = Vec::new();
        credits.append(&mut self.credits);
        assert(credits@ =~= before.credits);
        assert(self@ =~= (SearchModel { credits: Seq::empty(), ..before }));
        credits
    }

    /// Gives a case of the corpus another energy.
    pub fn set_energy(&mut self, index: usize, energy: u64)
        requires
            index < old(self)@.corpus.len(),
            old(self)@.valid(),
        ensures
            final(self)@ == (SearchModel {
                corpus: old(self)@.corpus.update(
                    index as int,
                    (SeedModel { energy, ..old(self)@.corpus[index as int] }),
                ),
                ..old(self)@
            }),
            final(self)@.valid(),
    {
        assert(seed_models(self.corpus@).len() == self.corpus@.len());
        let ghost before = seed_models(self.corpus@);
        self.corpus[index].energy = energy;
        proof {
            assert(seed_models(self.corpus@) =~= before.update(
                index as int,
                (SeedModel { energy, ..before[index as int] }),
            ));
            assert(self@ =~= (SearchModel { corpus: seed_models(self.corpus@), ..old(self)@ }));
            assert forall|i: int| 0 <= i < self@.corpus.len() implies (
            #[trigger] self@.corpus[i]).path_score() == old(self)@.corpus[i].path_score() by {}
        }
    }

    /// Whether the cases are to be weighed anew; if so, the executions are counted from zero.
    pub fn take_refresh(&mut self) -> (due: bool)
        ensures
            due == (old(self)@.since_refresh >= refresh_interval(old(self)@.goal)),
            final(self)@ == (SearchModel {
                since_refresh: if due {
                    0
                } else {
                    old(self)@.since_refresh
                },
                ..old(self)@
            }),
    {
        let interval: u64 = energy_refresh_interval(self.goal);
        if self.executions_since_refresh >= interval {
            self.executions_since_refresh = 0;
            true
        } else {
            false
        }
    }
}

/// After how many executions the cases are weighed anew.
pub open spec fn refresh_interval(goal: Goal) -> u64 {
    match goal {
        Goal::MaximizeCoverage => CURIOUS_ENERGY_REFRESH_INTERVAL,
        Goal::MinimizeCoverage => CAUTIOUS_ENERGY_REFRESH_INTERVAL,
    }
}

/// After how many executions the cases are weighed anew.
pub fn energy_refresh_interval(goal: Goal) -> (interval: u64)
    ensures
        interval == refresh_interval(goal),
{
    match goal {
        Goal::MaximizeCoverage => CURIOUS_ENERGY_REFRESH_INTERVAL,
        Goal::MinimizeCoverage => CAUTIOUS_ENERGY_REFRESH_INTERVAL,
    }
}

} // verus!
