//! Which case comes next.

use crate::candidate::{Candidate, CandidateModel, CandidateOrigin, OriginModel};
use crate::havoc::{is_havoc_candidate, materialize_candidate, HavocPlan};
use crate::mutation::MutationKind;
use crate::random::{draw_size, draw_word};
use crate::reducer::state::{
    idle_reducer, next_reduction, reductions_are_mutations, reset_reducer, CautiousReducer,
    ReducerModel,
};
use crate::score::SearchStats;
use crate::search::frequency::one_more;
use crate::search::merge::best_model;
use crate::search::state::{case_models, MutationSource, SearchModel, SearchState};
use crate::trace::{copy_bytes, NodeModel, Trace, TraceModel};
use vstd::prelude::*;

verus! {

/// The next seed for a fresh case.
pub open spec fn fallback_seed(state: SearchModel) -> u64 {
    ((state.base_seed + state.next) % 0x1_0000_0000_0000_0000) as u64
}

/// One seed for a fresh case is used up.
pub open spec fn seed_used(state: SearchModel) -> SearchModel {
    SearchModel { next: ((state.next + 1) % 0x1_0000_0000_0000_0000) as u64, ..state }
}

/// A case that draws nothing but fresh bytes.
pub open spec fn fresh_root(seed: u64) -> CandidateModel {
    seeded_case(
        TraceModel {
            seed,
            root: NodeModel { events: Seq::empty() },
            flat: None,
            zero_tail: false,
        },
    )
}

/// A case as it was handed in.
pub open spec fn seeded_case(case: TraceModel) -> CandidateModel {
    CandidateModel { case, mutated: false, origin: OriginModel::SeededCase }
}

/// The reducer, set to the best case.
pub open spec fn reducer_of_best(state: SearchModel) -> ReducerModel {
    if state.reducer.best_index == state.best_index {
        state.reducer
    } else {
        match state.best_index {
            Some(index) if index < state.corpus.len() => reset_reducer(
                state.reducer,
                index,
                best_model(state.corpus[index as int]),
            ),
            _ => idle_reducer(),
        }
    }
}

/// A plan of random rewrites: of the parent that was named, or of any; with the path of any case
/// to cross it with, where the search is after coverage and has more cases than one.
pub open spec fn is_havoc_plan(
    state: SearchModel,
    parent: Option<usize>,
    curious: bool,
    plan: HavocPlan,
) -> bool {
    &&& plan.curious == curious
    &&& plan.fallback == fallback_seed(state)
    &&& plan.depth == state.mutate_depth
    &&& is_parent(state, parent, plan.parent_seed, plan.parent_prefix@)
    &&& match plan.crossover_prefix {
        Some(prefix) => curious && state.corpus.len() > 1 && is_path(state, prefix@),
        None => !curious || state.corpus.len() <= 1,
    }
}

/// The seed and the path of the parent that was named, or of any case.
pub open spec fn is_parent(
    state: SearchModel,
    parent: Option<usize>,
    seed: u64,
    prefix: Seq<u8>,
) -> bool {
    exists|index: int|
        {
            &&& 0 <= index < state.corpus.len()
            &&& parent matches Some(named) ==> named < state.corpus.len() ==> index == named
            &&& (#[trigger] state.corpus[index]).seed == seed
            &&& state.corpus[index].prefix == prefix
        }
}

/// The path of a case that is kept.
pub open spec fn is_path(state: SearchModel, prefix: Seq<u8>) -> bool {
    exists|index: int|
        0 <= index < state.corpus.len() && (#[trigger] state.corpus[index]).prefix == prefix
}

/// A candidate made by random rewrites.
pub open spec fn is_havoc(
    state: SearchModel,
    parent: Option<usize>,
    curious: bool,
    candidate: CandidateModel,
) -> bool {
    exists|plan: HavocPlan| #[trigger]
        is_havoc_plan(state, parent, curious, plan) && is_havoc_candidate(
            plan,
            candidate,
            state.dictionary,
        )
}

/// A source of the caller's that is to be asked for a candidate.
#[derive(Debug, Clone, Copy, PartialEq, Eq, Structural)]
pub struct Question {
    /// The place of the source in the list of the sources.
    pub source: usize,
    /// The case of the corpus that the candidate is to be made from.
    pub parent: usize,
    /// The seed of the candidate, where it has no other.
    pub fallback: u64,
    /// The seed of the generator that the source may draw from.
    pub rng_seed: u64,
}

/// What a source of the caller's makes of a case.
pub struct Answer {
    pub case: Trace,
    pub mutations: Vec<MutationKind>,
}

/// What comes next.
pub enum Plan {
    /// A case to run.
    Ready(Candidate),
    /// A source of the caller's is to be asked first.
    Ask(Question),
    /// No source has a case.
    Nothing,
}

/// What comes next, by contents.
#[verifier::ext_equal]
pub enum PlanModel {
    Ready(CandidateModel),
    Ask(Question),
    Nothing,
}

impl View for Plan {
    type V = PlanModel;

    open spec fn view(&self) -> PlanModel {
        match *self {
            Plan::Ready(candidate) => PlanModel::Ready(candidate@),
            Plan::Ask(question) => PlanModel::Ask(question),
            Plan::Nothing => PlanModel::Nothing,
        }
    }
}

/// A candidate that may be missing, as a plan.
pub open spec fn plan_of(candidate: Option<CandidateModel>) -> PlanModel {
    match candidate {
        Some(candidate) => PlanModel::Ready(candidate),
        None => PlanModel::Nothing,
    }
}

/// The question to the source at a place: about the parent that was named, or about any.
pub open spec fn is_question(
    state: SearchModel,
    parent: Option<usize>,
    k: int,
    question: Question,
) -> bool {
    &&& question.source == k
    &&& question.parent < state.corpus.len()
    &&& parent matches Some(named) ==> named < state.corpus.len() ==> question.parent == named
    &&& question.fallback == fallback_seed(state)
}

/// Whether a source gives candidates at all.
pub open spec fn source_enabled(state: SearchModel, source: MutationSource, ask: bool) -> bool {
    match source {
        MutationSource::MinimizingHavoc => state.options.havoc,
        MutationSource::Custom => ask,
        _ => true,
    }
}

/// The first of the sources from `k` on that has a candidate gives it. The sources of the caller
/// are asked, or passed over.
pub open spec fn chosen_from(
    state: SearchModel,
    after: SearchModel,
    parent: Option<usize>,
    plan: PlanModel,
    k: int,
    ask: bool,
) -> bool
    decreases state.sources.len() - k,
{
    if k < 0 || k >= state.sources.len() {
        plan == PlanModel::Nothing && after == state
    } else if !source_enabled(state, state.sources[k], ask) {
        chosen_from(state, after, parent, plan, k + 1, ask)
    } else {
        match state.sources[k] {
            MutationSource::SemanticReductions => {
                let (reducer, reduction) = next_reduction(
                    reducer_of_best(state),
                    state.dictionary,
                    state.options,
                    state.weights,
                );
                let reduced = SearchModel { reducer, ..state };
                if reduction is Some {
                    plan == plan_of(reduction) && after == reduced
                } else {
                    chosen_from(reduced, after, parent, plan, k + 1, ask)
                }
            },
            MutationSource::CoverageHavoc => {
                &&& plan is Ready
                &&& is_havoc(state, parent, true, plan->Ready_0)
                &&& after == seed_used(state)
            },
            MutationSource::MinimizingHavoc => {
                &&& plan is Ready
                &&& is_havoc(state, parent, false, plan->Ready_0)
                &&& after == seed_used(state)
            },
            MutationSource::Custom => {
                &&& plan is Ask
                &&& is_question(state, parent, k, plan->Ask_0)
                &&& after == state
            },
        }
    }
}

/// One more case was looked for.
pub open spec fn stepped(state: SearchModel) -> SearchModel {
    if state.fresh_roots {
        SearchModel {
            seed_step: ((state.seed_step + 1) % 0x1_0000_0000_0000_0000) as u64,
            ..state
        }
    } else {
        state
    }
}

/// What comes next: the cases that were handed in come first; a search without a corpus has
/// nothing but fresh cases; fresh cases also come every so often; all others are made from the
/// corpus.
pub open spec fn chosen(
    state: SearchModel,
    after: SearchModel,
    parent: Option<usize>,
    plan: PlanModel,
    ask: bool,
) -> bool {
    let step = stepped(state);
    if state.pending.len() > 0 {
        &&& plan == PlanModel::Ready(seeded_case(state.pending[0]))
        &&& after == (SearchModel { pending: state.pending.skip(1), ..state })
    } else if state.corpus.len() == 0 {
        if state.fresh_roots {
            plan == PlanModel::Ready(fresh_root(fallback_seed(state))) && after == seed_used(state)
        } else {
            plan == PlanModel::Nothing && after == state
        }
    } else if state.fresh_roots && step.seed_step % state.seed_ratio == 0 {
        plan == PlanModel::Ready(fresh_root(fallback_seed(state))) && after == seed_used(step)
    } else {
        chosen_from(step, after, parent, plan, 0, ask)
    }
}

/// One more case is running.
pub open spec fn one_running(state: SearchModel, mutated: bool) -> SearchModel {
    SearchModel {
        active_cases: one_more(state.active_cases),
        stats: SearchStats {
            generated: one_more(state.stats.generated),
            mutated: if mutated {
                one_more(state.stats.mutated)
            } else {
                state.stats.mutated
            },
            ..state.stats
        },
        ..state
    }
}

/// What comes next, and the search that runs it.
pub open spec fn plans_next(
    state: SearchModel,
    after: SearchModel,
    parent: Option<usize>,
    plan: PlanModel,
    ask: bool,
) -> bool {
    exists|planned: SearchModel| #[trigger]
        chosen(state, planned, parent, plan, ask) && runs(planned, after, plan)
}

/// If a case is ready, it is counted as running.
pub open spec fn runs(planned: SearchModel, after: SearchModel, plan: PlanModel) -> bool {
    match plan {
        PlanModel::Ready(case) => after == one_running(planned, case.mutated),
        _ => after == planned,
    }
}

/// The next case without the sources of the caller, and the search that runs it.
pub open spec fn comes_next(
    state: SearchModel,
    after: SearchModel,
    parent: Option<usize>,
    candidate: Option<CandidateModel>,
) -> bool {
    plans_next(state, after, parent, plan_of(candidate), false)
}

/// The candidate that a source of the caller's made.
pub open spec fn custom_case(source: usize, answer: Answer) -> CandidateModel {
    CandidateModel {
        case: answer.case@,
        mutated: true,
        origin: OriginModel::CustomMutation { source, mutations: answer.mutations@ },
    }
}

/// What comes next after a source of the caller's was asked: its candidate, or what the sources
/// after it have.
pub open spec fn comes_of_answer(
    state: SearchModel,
    after: SearchModel,
    parent: Option<usize>,
    source: usize,
    answer: Option<Answer>,
    plan: PlanModel,
) -> bool {
    match answer {
        Some(answer) => {
            &&& plan == PlanModel::Ready(custom_case(source, answer))
            &&& after == one_running(seed_used(state), true)
        },
        None => exists|planned: SearchModel| #[trigger]
            chosen_from(state, planned, parent, plan, source + 1, true) && runs(
                planned,
                after,
                plan,
            ),
    }
}

/// Cases that were handed in come before all others, in the order in which they were handed in.
pub proof fn seeded_cases_come_first(
    state: SearchModel,
    after: SearchModel,
    parent: Option<usize>,
    candidate: Option<CandidateModel>,
)
    requires
        comes_next(state, after, parent, candidate),
        state.pending.len() > 0,
    ensures
        candidate == Some(seeded_case(state.pending[0])),
        after.pending == state.pending.skip(1),
{
}

/// A search that takes no fresh cases and was handed none has no next case.
pub proof fn nothing_comes_of_nothing(
    state: SearchModel,
    after: SearchModel,
    parent: Option<usize>,
    candidate: Option<CandidateModel>,
)
    requires
        comes_next(state, after, parent, candidate),
        state.pending.len() == 0,
        state.corpus.len() == 0,
        !state.fresh_roots,
    ensures
        candidate is None,
        after == state,
{
}

/// A search that takes no fresh cases makes all of its own cases from the corpus: none of them is
/// a fresh one.
pub proof fn no_unrelated_cases_come(
    state: SearchModel,
    after: SearchModel,
    parent: Option<usize>,
    case: CandidateModel,
    ask: bool,
)
    requires
        plans_next(state, after, parent, PlanModel::Ready(case), ask),
        state.pending.len() == 0,
        !state.fresh_roots,
    ensures
        case.mutated,
        !(case.origin is SeededCase),
        state.corpus.len() > 0,
{
    let plan = PlanModel::Ready(case);
    let planned = choose|planned: SearchModel| #[trigger]
        chosen(state, planned, parent, plan, ask) && runs(planned, after, plan);
    lemma_chosen_from_corpus(state, planned, parent, case, 0, ask);
}

proof fn lemma_chosen_from_corpus(
    state: SearchModel,
    after: SearchModel,
    parent: Option<usize>,
    case: CandidateModel,
    k: int,
    ask: bool,
)
    requires
        chosen_from(state, after, parent, PlanModel::Ready(case), k, ask),
        0 <= k,
    ensures
        case.mutated,
        !(case.origin is SeededCase),
    decreases state.sources.len() - k,
{
    if k < state.sources.len() {
        if !source_enabled(state, state.sources[k], ask) {
            lemma_chosen_from_corpus(state, after, parent, case, k + 1, ask);
        } else {
            match state.sources[k] {
                MutationSource::SemanticReductions => {
                    let (reducer, reduction) = next_reduction(
                        reducer_of_best(state),
                        state.dictionary,
                        state.options,
                        state.weights,
                    );
                    if reduction is Some {
                        reductions_are_mutations(
                            reducer_of_best(state),
                            state.dictionary,
                            state.options,
                            state.weights,
                        );
                    } else {
                        let reduced = SearchModel { reducer, ..state };
                        lemma_chosen_from_corpus(reduced, after, parent, case, k + 1, ask);
                    }
                },
                _ => {},
            }
        }
    }
}

/// A search that takes fresh cases has a next case while its corpus is empty.
pub proof fn fresh_cases_start_a_search(
    state: SearchModel,
    after: SearchModel,
    parent: Option<usize>,
    candidate: Option<CandidateModel>,
)
    requires
        comes_next(state, after, parent, candidate),
        state.pending.len() == 0,
        state.corpus.len() == 0,
        state.fresh_roots,
    ensures
        candidate == Some(fresh_root(fallback_seed(state))),
{
}

proof fn lemma_chosen_from_keeps(
    state: SearchModel,
    after: SearchModel,
    parent: Option<usize>,
    plan: PlanModel,
    k: int,
    ask: bool,
)
    requires
        chosen_from(state, after, parent, plan, k, ask),
        0 <= k,
    ensures
        after == (SearchModel { reducer: after.reducer, next: after.next, ..state }),
    decreases state.sources.len() - k,
{
    if k < state.sources.len() {
        if !source_enabled(state, state.sources[k], ask) {
            lemma_chosen_from_keeps(state, after, parent, plan, k + 1, ask);
        } else if state.sources[k] == MutationSource::SemanticReductions {
            let (reducer, reduction) = next_reduction(
                reducer_of_best(state),
                state.dictionary,
                state.options,
                state.weights,
            );
            let reduced = SearchModel { reducer, ..state };
            if !(reduction is Some) {
                lemma_chosen_from_keeps(reduced, after, parent, plan, k + 1, ask);
            }
        }
    }
}

/// To choose a case changes neither the corpus nor what was learned, and leaves a valid search
/// valid.
pub proof fn choosing_keeps_knowledge(
    state: SearchModel,
    after: SearchModel,
    parent: Option<usize>,
    plan: PlanModel,
    ask: bool,
)
    requires
        plans_next(state, after, parent, plan, ask),
    ensures
        after.corpus == state.corpus,
        after.global == state.global,
        after.dictionary == state.dictionary,
        after.best == state.best,
        after.best_index == state.best_index,
        state.valid() ==> after.valid(),
{
    let planned = choose|planned: SearchModel| #[trigger]
        chosen(state, planned, parent, plan, ask) && runs(planned, after, plan);
    lemma_chosen_keeps(state, planned, parent, plan, ask);
}

proof fn lemma_chosen_keeps(
    state: SearchModel,
    after: SearchModel,
    parent: Option<usize>,
    plan: PlanModel,
    ask: bool,
)
    requires
        chosen(state, after, parent, plan, ask),
    ensures
        after == (SearchModel {
            reducer: after.reducer,
            next: after.next,
            pending: after.pending,
            seed_step: after.seed_step,
            ..state
        }),
{
    let step = stepped(state);
    if state.pending.len() == 0 && state.corpus.len() > 0 && !(state.fresh_roots && step.seed_step
        % state.seed_ratio == 0) {
        lemma_chosen_from_keeps(step, after, parent, plan, 0, ask);
    }
}

proof fn lemma_nobody_is_asked_from(
    state: SearchModel,
    after: SearchModel,
    parent: Option<usize>,
    plan: PlanModel,
    k: int,
)
    requires
        chosen_from(state, after, parent, plan, k, false),
        0 <= k,
    ensures
        !(plan is Ask),
    decreases state.sources.len() - k,
{
    if k < state.sources.len() {
        if !source_enabled(state, state.sources[k], false) {
            lemma_nobody_is_asked_from(state, after, parent, plan, k + 1);
        } else if state.sources[k] == MutationSource::SemanticReductions {
            let (reducer, reduction) = next_reduction(
                reducer_of_best(state),
                state.dictionary,
                state.options,
                state.weights,
            );
            if !(reduction is Some) {
                lemma_nobody_is_asked_from(
                    SearchModel { reducer, ..state },
                    after,
                    parent,
                    plan,
                    k + 1,
                );
            }
        }
    }
}

proof fn lemma_nobody_is_asked(
    state: SearchModel,
    after: SearchModel,
    parent: Option<usize>,
    plan: PlanModel,
)
    requires
        chosen(state, after, parent, plan, false),
    ensures
        !(plan is Ask),
{
    let step = stepped(state);
    if state.pending.len() == 0 && state.corpus.len() > 0 && !(state.fresh_roots && step.seed_step
        % state.seed_ratio == 0) {
        lemma_nobody_is_asked_from(step, after, parent, plan, 0);
    }
}

/// A source of the caller's that has a candidate is the one that made it, and its case is run.
pub proof fn answers_are_run(
    state: SearchModel,
    after: SearchModel,
    parent: Option<usize>,
    source: usize,
    answer: Answer,
    plan: PlanModel,
)
    requires
        comes_of_answer(state, after, parent, source, Some(answer), plan),
    ensures
        plan == PlanModel::Ready(custom_case(source, answer)),
        plan->Ready_0.origin.source() == Some(source),
        plan->Ready_0.case == answer.case@,
        after.corpus == state.corpus,
        after.stats.generated == one_more(state.stats.generated),
        after.stats.mutated == one_more(state.stats.mutated),
{
}

impl SearchState {
    fn next_fallback_seed(&mut self) -> (seed: u64)
        ensures
            seed == fallback_seed(old(self)@),
            final(self)@ == seed_used(old(self)@),
    {
        let seed: u64 = self.base_seed.wrapping_add(self.next);
        self.next = self.next.wrapping_add(1);
        assert(self@ =~= seed_used(old(self)@));
        seed
    }

    /// Sets the reducer to the best case, if it is set to another one.
    fn aim_reducer(&mut self)
        ensures
            final(self)@ == (SearchModel { reducer: reducer_of_best(old(self)@), ..old(self)@ }),
    {
        let ghost before = self@;
        let same: bool = match (self.cautious_reducer.best_index, self.min_path_best_index) {
            (Some(a), Some(b)) => a == b,
            (None, None) => true,
            _ => false,
        };
        assert(same == (before.reducer.best_index == before.best_index));
        if !same {
            assert(before.corpus.len() == self.corpus@.len());
            match self.min_path_best_index {
                Some(index) if index < self.corpus.len() => {
                    let entry = &self.corpus[index];
                    assert(before.corpus[index as int] == entry@);
                    self.cautious_reducer.reset(
                        index,
                        entry.seed,
                        &entry.case,
                        &entry.prefix,
                        &entry.draws,
                        &entry.scalars,
                        &entry.sequences,
                    );
                },
                _ => {
                    self.cautious_reducer = CautiousReducer::new();
                },
            }
        }
        assert(self@ =~= (SearchModel { reducer: reducer_of_best(before), ..before }));
    }

    /// The next reduction of the best case.
    fn next_cautious_reduction(&mut self) -> (candidate: Option<Candidate>)
        requires
            old(self)@.weights.wf(),
        ensures
            ({
                let (reducer, reduction) = next_reduction(
                    reducer_of_best(old(self)@),
                    old(self)@.dictionary,
                    old(self)@.options,
                    old(self)@.weights,
                );
                &&& final(self)@ == (SearchModel { reducer, ..old(self)@ })
                &&& model_of(candidate) == reduction
            }),
    {
        let ghost before = self@;
        self.aim_reducer();
        let candidate = self.cautious_reducer.next_candidate(
            &self.dictionary,
            self.cautious_options,
            &self.weights,
        );
        assert(self@ =~= (SearchModel {
            reducer: next_reduction(
                reducer_of_best(before),
                before.dictionary,
                before.options,
                before.weights,
            ).0,
            ..before
        }));
        candidate
    }

    /// A candidate made by random rewrites of a case that is kept.
    fn havoc(&mut self, parent: Option<usize>, curious: bool) -> (candidate: Candidate)
        requires
            old(self)@.valid(),
            old(self)@.corpus.len() > 0,
        ensures
            is_havoc(old(self)@, parent, curious, candidate@),
            final(self)@ == seed_used(old(self)@),
    {
        let ghost before = self@;
        assert(before.corpus.len() == self.corpus@.len());
        let total: usize = self.corpus.len();
        let index: usize = self.parent(parent);
        let parent_seed: u64 = self.corpus[index].seed;
        let parent_prefix = copy_bytes(&self.corpus[index].prefix);
        assert(before.corpus[index as int] == self.corpus@[index as int]@);
        assert(is_parent(before, parent, parent_seed, parent_prefix@));
        let crossover_prefix = if curious && total > 1 {
            let other: usize = draw_size(&mut self.scheduler, 0, total - 1);
            assert(before.corpus[other as int] == self.corpus@[other as int]@);
            let path = copy_bytes(&self.corpus[other].prefix);
            assert(is_path(before, path@));
            Some(path)
        } else {
            None
        };
        assert(self@ =~= before);
        let fallback: u64 = self.next_fallback_seed();
        let rng_seed: u64 = draw_word(&mut self.scheduler);
        assert(self@ =~= seed_used(before));
        let plan = HavocPlan {
            curious,
            parent_seed,
            parent_prefix,
            crossover_prefix,
            fallback,
            rng_seed,
            depth: self.mutate_depth,
        };
        assert(is_havoc_plan(before, parent, curious, plan));
        materialize_candidate(&plan, &self.dictionary, &self.weights)
    }

    /// The candidate of the first source from `k` on that has one.
    fn choose_from_sources(&mut self, parent: Option<usize>, k: usize, ask: bool) -> (plan: Plan)
        requires
            old(self)@.valid(),
            old(self)@.corpus.len() > 0,
        ensures
            chosen_from(old(self)@, final(self)@, parent, plan@, k as int, ask),
        decreases old(self)@.sources.len() - k,
    {
        if k >= self.candidate_sources.len() {
            return Plan::Nothing;
        }
        match self.candidate_sources[k] {
            MutationSource::SemanticReductions => match self.next_cautious_reduction() {
                Some(candidate) => Plan::Ready(candidate),
                None => self.choose_from_sources(parent, k + 1, ask),
            },
            MutationSource::CoverageHavoc => Plan::Ready(self.havoc(parent, true)),
            MutationSource::MinimizingHavoc => {
                if self.cautious_options.havoc {
                    Plan::Ready(self.havoc(parent, false))
                } else {
                    self.choose_from_sources(parent, k + 1, ask)
                }
            },
            MutationSource::Custom => {
                if ask {
                    Plan::Ask(self.question(parent, k))
                } else {
                    self.choose_from_sources(parent, k + 1, ask)
                }
            },
        }
    }

    /// What to ask the source at a place.
    fn question(&mut self, parent: Option<usize>, k: usize) -> (question: Question)
        requires
            old(self)@.corpus.len() > 0,
        ensures
            is_question(old(self)@, parent, k as int, question),
            final(self)@ == old(self)@,
    {
        let ghost before = self@;
        assert(before.corpus.len() == self.corpus@.len());
        let parent: usize = self.parent(parent);
        let fallback: u64 = self.base_seed.wrapping_add(self.next);
        let rng_seed: u64 = draw_word(&mut self.scheduler);
        assert(self@ =~= before);
        Question { source: k, parent, fallback, rng_seed }
    }

    /// The case of the corpus to start from: the one that was named, or any.
    fn parent(&mut self, parent: Option<usize>) -> (index: usize)
        requires
            old(self)@.corpus.len() > 0,
        ensures
            index < old(self)@.corpus.len(),
            parent matches Some(named) ==> named < old(self)@.corpus.len() ==> index == named,
            final(self)@ == old(self)@,
            final(self).corpus == old(self).corpus,
    {
        let ghost before = self@;
        assert(before.corpus.len() == self.corpus@.len());
        let total: usize = self.corpus.len();
        let index: usize = match parent {
            Some(named) if named < total => named,
            _ => draw_size(&mut self.scheduler, 0, total - 1),
        };
        assert(self@ =~= before);
        index
    }

    /// A case that draws nothing but fresh bytes.
    fn root(&mut self) -> (candidate: Candidate)
        ensures
            candidate@ == fresh_root(fallback_seed(old(self)@)),
            final(self)@ == seed_used(old(self)@),
    {
        let seed: u64 = self.next_fallback_seed();
        let candidate = Candidate {
            case: Trace::empty(seed),
            mutated: false,
            origin: CandidateOrigin::SeededCase,
        };
        assert(candidate@ =~= fresh_root(seed));
        candidate
    }

    /// What comes next. `parent` names the case of the corpus to start from, where one is
    /// rewritten at random.
    fn choose_candidate(&mut self, parent: Option<usize>, ask: bool) -> (plan: Plan)
        requires
            old(self)@.valid(),
        ensures
            chosen(old(self)@, final(self)@, parent, plan@, ask),
    {
        let ghost before = self@;
        assert(before.pending.len() == self.pending_cases@.len());
        assert(before.corpus.len() == self.corpus@.len());
        match self.pending_cases.pop_front() {
            Some(case) => {
                assert(case_models(self.pending_cases@) =~= before.pending.skip(1));
                assert(before.pending[0] == case@);
                assert(self@ =~= (SearchModel { pending: before.pending.skip(1), ..before }));
                return Plan::Ready(
                    Candidate { case, mutated: false, origin: CandidateOrigin::SeededCase },
                );
            },
            None => {
                assert(self@ =~= before);
            },
        }
        if self.corpus.len() == 0 {
            if self.fresh_roots {
                return Plan::Ready(self.root());
            }
            return Plan::Nothing;
        }
        if self.fresh_roots {
            self.seed_step = self.seed_step.wrapping_add(1);
            assert(self@ =~= stepped(before));
            if self.seed_step.is_multiple_of(self.seed_ratio) {
                return Plan::Ready(self.root());
            }
        }
        assert(self@ =~= stepped(before));
        self.choose_from_sources(parent, 0, ask)
    }

    /// Counts a case that is ready as running.
    fn run(&mut self, plan: &Plan)
        ensures
            runs(old(self)@, final(self)@, plan@),
    {
        let ghost before = self@;
        if let Plan::Ready(case) = plan {
            self.active_cases = self.active_cases.saturating_add(1);
            self.stats.generated = self.stats.generated.saturating_add(1);
            if case.mutated {
                self.stats.mutated = self.stats.mutated.saturating_add(1);
            }
            assert(self@ =~= one_running(before, case.mutated));
        }
    }

    /// The next case to run, counted as running; the sources of the caller are passed over.
    /// `parent` names the case of the corpus to start from, where one is rewritten at random;
    /// without it any case may be.
    pub fn next_candidate(&mut self, parent: Option<usize>) -> (candidate: Option<Candidate>)
        requires
            old(self)@.valid(),
        ensures
            comes_next(old(self)@, final(self)@, parent, model_of(candidate)),
            final(self)@.valid(),
    {
        let ghost before = self@;
        let plan = self.choose_candidate(parent, false);
        let ghost planned = self@;
        proof {
            lemma_nobody_is_asked(before, planned, parent, plan@);
        }
        self.run(&plan);
        proof {
            assert(plans_next(before, self@, parent, plan@, false));
            choosing_keeps_knowledge(before, self@, parent, plan@, false);
        }
        match plan {
            Plan::Ready(candidate) => Some(candidate),
            _ => None,
        }
    }

    /// What comes next: a case to run, counted as running, or a source of the caller's to ask.
    pub fn next_plan(&mut self, parent: Option<usize>) -> (plan: Plan)
        requires
            old(self)@.valid(),
        ensures
            plans_next(old(self)@, final(self)@, parent, plan@, true),
            final(self)@.valid(),
    {
        let ghost before = self@;
        let plan = self.choose_candidate(parent, true);
        self.run(&plan);
        proof {
            assert(plans_next(before, self@, parent, plan@, true));
            choosing_keeps_knowledge(before, self@, parent, plan@, true);
        }
        plan
    }

    /// What comes next after a source of the caller's was asked.
    pub fn answer(&mut self, source: usize, answer: Option<Answer>, parent: Option<usize>) -> (plan:
        Plan)
        requires
            old(self)@.valid(),
            old(self)@.corpus.len() > 0,
        ensures
            comes_of_answer(old(self)@, final(self)@, parent, source, answer, plan@),
            final(self)@.valid(),
    {
        let ghost before = self@;
        match answer {
            Some(answer) => {
                let _fallback: u64 = self.next_fallback_seed();
                let plan = Plan::Ready(
                    Candidate {
                        case: answer.case,
                        mutated: true,
                        origin: CandidateOrigin::CustomMutation {
                            source,
                            mutations: answer.mutations,
                        },
                    },
                );
                assert(plan@ =~= PlanModel::Ready(custom_case(source, answer)));
                self.run(&plan);
                plan
            },
            None => {
                if source >= self.candidate_sources.len() {
                    assert(chosen_from(
                        before,
                        before,
                        parent,
                        PlanModel::Nothing,
                        source + 1,
                        true,
                    ));
                    return Plan::Nothing;
                }
                let plan = self.choose_from_sources(parent, source + 1, true);
                let ghost planned = self@;
                self.run(&plan);
                proof {
                    lemma_chosen_from_keeps(before, planned, parent, plan@, source + 1, true);
                }
                plan
            },
        }
    }

    /// The capture of a case could not be started: the case does not run.
    pub fn cancel_case(&mut self)
        ensures
            final(self)@ == (SearchModel {
                active_cases: if old(self)@.active_cases > 0 {
                    (old(self)@.active_cases - 1) as u64
                } else {
                    0
                },
                ..old(self)@
            }),
    {
        self.active_cases = self.active_cases.saturating_sub(1);
    }
}

/// The contents of a candidate that may be missing.
pub open spec fn model_of(candidate: Option<Candidate>) -> Option<CandidateModel> {
    match candidate {
        Some(candidate) => Some(candidate@),
        None => None,
    }
}

} // verus!
