//! The reducer: it tries the reductions of the best case one after the other, the most promising
//! family first, and learns from what came of them.

use crate::candidate::{
    fingerprint_of, prefix_fingerprint, Candidate, CandidateModel, CandidateOrigin, OriginModel,
    ReductionId,
};
use crate::mutation::byte_lists;
use crate::order::{
    keys_less, less_keys, lemma_sorted_by_is_arranged, sorted_by, stable_order,
};
use crate::reducer::bytes::{
    block_delete_list, block_zero_list, block_zero_specs, byte_lower_list, byte_lower_specs,
    dictionary_list, dictionary_repair_specs, draw_delete_list, draw_delete_specs,
    draw_length_list, draw_length_specs, repeated_value_list, repeated_value_specs, tail_trim_list,
    tail_trim_specs, weighted_block_delete_specs, word_lower_list, word_lower_specs,
};
use crate::reducer::ranking::{
    arrange, descending, range_score, range_score_spec, rank_keys, sort_specs, Ranking,
};
use crate::reducer::scalars::{
    scalar_common_offset_list, scalar_common_offset_specs, scalar_group_list, scalar_group_specs,
    scalar_lower_list, scalar_lower_specs,
};
use crate::reducer::sequences::{
    sequence_delete_list, sequence_delete_specs, sequence_project_list, sequence_project_specs,
    sequence_replace_list, sequence_replace_specs,
};
use crate::reduction::{
    flat_case, materialized, spec_models, ReductionOperation, ReductionSpec, SpecModel,
};
use crate::score::CautiousOptions;
use crate::trace::{
    copy_bytes, copy_draws, copy_scalars, copy_sequences, sequence_models, DrawSpan, NodeModel,
    ScalarSpan, SequenceModel, SequenceSpan, Trace, TraceModel, MAX_PREFIX_LEN,
};
use crate::weights::{Weights, WeightsModel};
use std::collections::HashSet;
use vstd::prelude::*;

verus! {

/// Paths that are remembered as tried.
pub const MAX_REDUCER_TRIED_PREFIXES: usize = 65536;

/// The families, in the order in which they are kept.
pub open spec fn operations() -> Seq<ReductionOperation> {
    seq![
        ReductionOperation::SequenceDelete,
        ReductionOperation::ScalarGroup,
        ReductionOperation::ScalarCommonOffset,
        ReductionOperation::ScalarLower,
        ReductionOperation::DrawLength,
        ReductionOperation::TailTrim,
        ReductionOperation::DrawDelete,
        ReductionOperation::SequenceProject,
        ReductionOperation::SequenceReplace,
        ReductionOperation::WeightedBlockDelete,
        ReductionOperation::BlockZero,
        ReductionOperation::WordLower,
        ReductionOperation::ByteLower,
        ReductionOperation::RepeatedValue,
        ReductionOperation::DictionaryRepair,
    ]
}

/// One family of reductions of the best case, and how far it has been tried.
#[derive(Debug, PartialEq, Eq)]
pub struct ReductionOperationState {
    pub operation: ReductionOperation,
    pub specs: Vec<ReductionSpec>,
    pub cursor: usize,
    pub rejects: u64,
    pub preserves: u64,
    pub drained: bool,
}

/// One family by its contents.
#[verifier::ext_equal]
pub struct OperationModel {
    pub operation: ReductionOperation,
    pub specs: Seq<SpecModel>,
    pub cursor: usize,
    pub rejects: u64,
    pub preserves: u64,
    pub drained: bool,
}

impl View for ReductionOperationState {
    type V = OperationModel;

    open spec fn view(&self) -> OperationModel {
        OperationModel {
            operation: self.operation,
            specs: spec_models(self.specs@),
            cursor: self.cursor,
            rejects: self.rejects,
            preserves: self.preserves,
            drained: self.drained,
        }
    }
}

/// A family of which nothing is known yet.
pub open spec fn fresh_operation(operation: ReductionOperation) -> OperationModel {
    OperationModel {
        operation,
        specs: Seq::empty(),
        cursor: 0,
        rejects: 0,
        preserves: 0,
        drained: false,
    }
}

/// The contents of a list of families.
pub open spec fn operation_models(states: Seq<ReductionOperationState>) -> Seq<OperationModel> {
    states.map_values(|state: ReductionOperationState| state@)
}

/// What the reductions are made from.
#[verifier::ext_equal]
pub struct BestModel {
    pub seed: u64,
    pub case: TraceModel,
    pub prefix: Seq<u8>,
    pub draws: Seq<DrawSpan>,
    pub scalars: Seq<ScalarSpan>,
    pub sequences: Seq<SequenceModel>,
}

/// The reducer of the best case.
#[derive(Debug)]
pub struct CautiousReducer {
    pub epoch: u64,
    pub best_index: Option<usize>,
    pub best_seed: u64,
    pub best_case: Trace,
    pub best_prefix: Vec<u8>,
    pub best_draws: Vec<DrawSpan>,
    pub best_scalars: Vec<ScalarSpan>,
    pub best_sequences: Vec<SequenceSpan>,
    pub operation_states: Vec<ReductionOperationState>,
    pub tried_prefixes: HashSet<u128>,
    pub range_pressure: Vec<u16>,
    pub rejects: u64,
    pub preserves: u64,
    pub exhausted: bool,
}

/// A reducer by its contents.
#[verifier::ext_equal]
pub struct ReducerModel {
    pub epoch: u64,
    pub best_index: Option<usize>,
    pub best: BestModel,
    pub states: Seq<OperationModel>,
    pub tried: Set<u128>,
    pub pressure: Seq<u16>,
    pub rejects: u64,
    pub preserves: u64,
    pub exhausted: bool,
}

impl View for CautiousReducer {
    type V = ReducerModel;

    open spec fn view(&self) -> ReducerModel {
        ReducerModel {
            epoch: self.epoch,
            best_index: self.best_index,
            best: BestModel {
                seed: self.best_seed,
                case: self.best_case@,
                prefix: self.best_prefix@,
                draws: self.best_draws@,
                scalars: self.best_scalars@,
                sequences: sequence_models(self.best_sequences@),
            },
            states: operation_models(self.operation_states@),
            tried: self.tried_prefixes@,
            pressure: self.range_pressure@,
            rejects: self.rejects,
            preserves: self.preserves,
            exhausted: self.exhausted,
        }
    }
}

/// The reducer before there is a best case.
pub open spec fn idle_reducer() -> ReducerModel {
    ReducerModel {
        epoch: 0,
        best_index: None,
        best: BestModel {
            seed: 0,
            case: TraceModel {
                seed: 0,
                root: NodeModel { events: Seq::empty() },
                flat: None,
                zero_tail: false,
            },
            prefix: Seq::empty(),
            draws: Seq::empty(),
            scalars: Seq::empty(),
            sequences: Seq::empty(),
        },
        states: Seq::empty(),
        tried: Set::empty(),
        pressure: Seq::empty(),
        rejects: 0,
        preserves: 0,
        exhausted: true,
    }
}

/// The key under which a path is remembered.
pub open spec fn tried_key(prefix: Seq<u8>) -> u128 {
    fingerprint_of(prefix).key_spec()
}

/// The reducer after `best`, entry `index` of the corpus, became the best case.
pub open spec fn reset_reducer(pre: ReducerModel, index: usize, best: BestModel) -> ReducerModel {
    ReducerModel {
        epoch: ((pre.epoch + 1) % 0x1_0000_0000_0000_0000) as u64,
        best_index: Some(index),
        best,
        states: operations().map_values(|operation: ReductionOperation| fresh_operation(operation)),
        tried: Set::empty().insert(tried_key(best.prefix)),
        pressure: Seq::new(best.prefix.len(), |i: int| 1u16),
        rejects: 0,
        preserves: 0,
        exhausted: false,
    }
}

/// What the reductions of a family are ordered by when they are made.
pub open spec fn ranking_of(operation: ReductionOperation) -> Ranking {
    match operation {
        ReductionOperation::SequenceDelete => Ranking::PressureSizeStart,
        ReductionOperation::ScalarGroup => Ranking::ScoreTargetStartLen,
        ReductionOperation::ScalarCommonOffset => Ranking::ScoreTargetStartSizeLen,
        ReductionOperation::ScalarLower => Ranking::PressureStartLenTarget,
        ReductionOperation::DrawLength => Ranking::PressureStartLenTarget,
        ReductionOperation::TailTrim => Ranking::PressureSizeStart,
        ReductionOperation::DrawDelete => Ranking::PressureSizeLateStart,
        ReductionOperation::SequenceProject => Ranking::TargetScoreSizeStart,
        ReductionOperation::SequenceReplace => Ranking::PressureStartTarget,
        ReductionOperation::WeightedBlockDelete => Ranking::PressureSizeStart,
        ReductionOperation::BlockZero => Ranking::PressureSizeStart,
        ReductionOperation::WordLower => Ranking::PressureLenStartTarget,
        ReductionOperation::ByteLower => Ranking::PressureStartTarget,
        ReductionOperation::RepeatedValue => Ranking::Unranked,
        ReductionOperation::DictionaryRepair => Ranking::PressureStartLenTarget,
    }
}

/// The reductions of a family, as they are found.
pub open spec fn found_specs(
    operation: ReductionOperation,
    best: BestModel,
    dictionary: Seq<Seq<u8>>,
    pressure: Seq<u16>,
    options: CautiousOptions,
) -> Seq<SpecModel> {
    let total = best.prefix.len() as int;
    match operation {
        ReductionOperation::SequenceDelete => if options.range_reductions {
            sequence_delete_list(total, best.sequences, options.range_limit)
        } else {
            Seq::empty()
        },
        ReductionOperation::SequenceProject => if options.range_reductions {
            sequence_project_list(total, best.sequences, options.range_limit)
        } else {
            Seq::empty()
        },
        ReductionOperation::SequenceReplace => if options.range_reductions {
            sequence_replace_list(best.prefix, best.sequences, options.range_limit)
        } else {
            Seq::empty()
        },
        ReductionOperation::ScalarGroup => scalar_group_list(
            best.prefix,
            best.scalars,
            pressure,
            options.draw_limit,
        ),
        ReductionOperation::ScalarCommonOffset => scalar_common_offset_list(
            best.prefix,
            best.scalars,
            options.draw_limit,
        ),
        ReductionOperation::ScalarLower => scalar_lower_list(
            best.prefix,
            best.scalars,
            options.draw_limit,
        ),
        ReductionOperation::DrawLength => draw_length_list(
            best.prefix,
            best.draws,
            options.draw_limit,
        ),
        ReductionOperation::TailTrim => tail_trim_list(total),
        ReductionOperation::DrawDelete => draw_delete_list(total, best.draws, options.draw_limit),
        ReductionOperation::WeightedBlockDelete => block_delete_list(total),
        ReductionOperation::BlockZero => block_zero_list(best.prefix),
        ReductionOperation::WordLower => word_lower_list(
            best.prefix,
            best.draws,
            options.draw_limit,
        ),
        ReductionOperation::ByteLower => byte_lower_list(best.prefix),
        ReductionOperation::RepeatedValue => repeated_value_list(best.prefix),
        ReductionOperation::DictionaryRepair => dictionary_list(best.prefix, dictionary),
    }
}

/// At most `limit` of the reductions, the first ones.
pub open spec fn first_specs(specs: Seq<SpecModel>, limit: usize) -> Seq<SpecModel> {
    if specs.len() > limit {
        specs.take(limit as int)
    } else {
        specs
    }
}

/// The reductions of a family, in its order, as many as are kept.
pub open spec fn family_specs(
    operation: ReductionOperation,
    best: BestModel,
    dictionary: Seq<Seq<u8>>,
    pressure: Seq<u16>,
    options: CautiousOptions,
) -> Seq<SpecModel> {
    first_specs(
        sorted_by(
            found_specs(operation, best, dictionary, pressure, options),
            rank_keys(ranking_of(operation), pressure),
        ),
        options.operation_candidate_limit,
    )
}

/// Key of a reduction among those of its family that are still to be tried.
pub open spec fn tail_key(
    weights: WeightsModel,
    pressure: Seq<u16>,
    spec: SpecModel,
) -> Seq<u64> {
    seq![
        descending(weights.of_kind(spec.op.mutation.kind()) as int),
        range_score_spec(pressure, spec),
        descending(spec.op.simplification as int),
        spec.op.start as u64,
        spec.op.len as u64,
        spec.op.target,
    ]
}

pub open spec fn tail_keys(
    weights: WeightsModel,
    pressure: Seq<u16>,
) -> spec_fn(SpecModel) -> Seq<u64> {
    |spec: SpecModel| tail_key(weights, pressure, spec)
}

/// The family with what is still to be tried in order; drained where nothing is.
pub open spec fn sorted_operation(
    state: OperationModel,
    weights: WeightsModel,
    pressure: Seq<u16>,
) -> OperationModel {
    if state.cursor >= state.specs.len() {
        OperationModel { drained: true, ..state }
    } else {
        OperationModel {
            specs: state.specs.take(state.cursor as int) + sorted_by(
                state.specs.skip(state.cursor as int),
                tail_keys(weights, pressure),
            ),
            ..state
        }
    }
}

/// The family with its reductions made, if they have not been made yet.
pub open spec fn prepared_operation(
    state: OperationModel,
    best: BestModel,
    dictionary: Seq<Seq<u8>>,
    pressure: Seq<u16>,
    options: CautiousOptions,
    weights: WeightsModel,
) -> OperationModel {
    if state.drained || state.specs.len() > 0 {
        state
    } else {
        let made = OperationModel {
            specs: family_specs(state.operation, best, dictionary, pressure, options),
            ..state
        };
        let sorted = sorted_operation(made, weights, pressure);
        OperationModel { drained: sorted.specs.len() == 0, ..sorted }
    }
}

/// The reducer with all its reductions made.
pub open spec fn prepared_reducer(
    pre: ReducerModel,
    dictionary: Seq<Seq<u8>>,
    options: CautiousOptions,
    weights: WeightsModel,
) -> ReducerModel {
    ReducerModel {
        states: Seq::new(
            pre.states.len(),
            |i: int|
                prepared_operation(
                    pre.states[i],
                    pre.best,
                    dictionary,
                    pre.pressure,
                    options,
                    weights,
                ),
        ),
        ..pre
    }
}

/// Something of the family is still to be tried.
pub open spec fn has_next(state: OperationModel) -> bool {
    !state.drained && state.cursor < state.specs.len()
}

/// How promising the next reduction of a family is, the smaller the more: the weight of the family,
/// how much more often it failed than not, the weight of the rewrite, how far it is put off, what
/// it changes and how much.
pub open spec fn priority(
    state: OperationModel,
    weights: WeightsModel,
    pressure: Seq<u16>,
) -> Seq<u64> {
    let spec = state.specs[state.cursor as int];
    seq![
        descending(weights.of_operation(state.operation) as int),
        if state.rejects >= state.preserves {
            (state.rejects - state.preserves) as u64
        } else {
            0
        },
        descending(weights.of_kind(spec.op.mutation.kind()) as int),
        range_score_spec(pressure, spec),
        state.operation.structure_rank_spec() as u64,
        descending(spec.op.simplification as int),
        state.operation.stable_rank_spec() as u64,
        spec.op.start as u64,
        spec.op.len as u64,
        spec.op.target,
    ]
}

/// The most promising of the first `n` families; the first of several.
pub open spec fn best_operation(
    states: Seq<OperationModel>,
    weights: WeightsModel,
    pressure: Seq<u16>,
    n: int,
) -> Option<int>
    decreases n,
{
    if n <= 0 || n > states.len() {
        None
    } else {
        let rest = best_operation(states, weights, pressure, n - 1);
        if !has_next(states[n - 1]) {
            rest
        } else {
            match rest {
                Some(best) => if keys_less(
                    priority(states[n - 1], weights, pressure),
                    priority(states[best], weights, pressure),
                ) {
                    Some(n - 1)
                } else {
                    rest
                },
                None => Some(n - 1),
            }
        }
    }
}

/// A case of bytes and draws alone: nothing says more of them.
pub open spec fn is_plain(best: BestModel) -> bool {
    best.scalars.len() == 0 && best.sequences.len() == 0
}

/// A family that goes by bytes, whatever they were drawn for.
pub open spec fn goes_by_bytes(operation: ReductionOperation) -> bool {
    operation.structure_rank_spec() >= 3
}

/// The next reduction of the family is a small value for the first draw, which is most often a
/// length.
pub open spec fn is_first_length(state: OperationModel) -> bool {
    &&& has_next(state)
    &&& state.operation is DrawLength
    &&& state.specs[state.cursor as int].op.start == 0
}

/// The first of the first `n` families whose next reduction is a length of the first draw.
pub open spec fn first_length(states: Seq<OperationModel>, n: int) -> Option<int>
    decreases n,
{
    if n <= 0 || n > states.len() {
        None
    } else {
        match first_length(states, n - 1) {
            Some(i) => Some(i),
            None => if is_first_length(states[n - 1]) {
                Some(n - 1)
            } else {
                None
            },
        }
    }
}

/// The family whose turn it is: the most promising one. Only in a case of bytes and draws alone, and
/// only where that family goes by bytes, a length of the first draw goes before it.
pub open spec fn next_operation(
    best: BestModel,
    states: Seq<OperationModel>,
    weights: WeightsModel,
    pressure: Seq<u16>,
) -> Option<int> {
    match best_operation(states, weights, pressure, states.len() as int) {
        Some(i) => if is_plain(best) && goes_by_bytes(states[i].operation) {
            match first_length(states, states.len() as int) {
                Some(length) => Some(length),
                None => Some(i),
            }
        } else {
            Some(i)
        },
        None => None,
    }
}

/// The family after its next reduction was taken.
pub open spec fn advanced_operation(state: OperationModel) -> OperationModel {
    OperationModel {
        cursor: (state.cursor + 1) as usize,
        drained: state.drained || state.cursor + 1 >= state.specs.len(),
        ..state
    }
}

/// The reduced case and its path, cut to the longest path that is kept.
pub open spec fn cut(
    case: TraceModel,
    prefix: Seq<u8>,
    best: BestModel,
) -> (TraceModel, Seq<u8>) {
    if prefix.len() > MAX_PREFIX_LEN {
        let short = prefix.take(MAX_PREFIX_LEN as int);
        (flat_case(best.seed, short, best.case.zero_tail), short)
    } else {
        (case, prefix)
    }
}

/// The tried paths after one more; they start anew when they are too many.
pub open spec fn remembered(tried: Set<u128>, best: Seq<u8>, prefix: Seq<u8>) -> Set<u128> {
    if tried.len() >= MAX_REDUCER_TRIED_PREFIXES {
        Set::empty().insert(tried_key(best)).insert(tried_key(prefix))
    } else {
        tried.insert(tried_key(prefix))
    }
}

/// What one attempt comes to.
pub enum Attempt {
    /// No reduction is left.
    Exhausted,
    /// The reduction does not fit, changes nothing, or leads to a path that was tried.
    Skipped,
    /// A new candidate.
    Found(CandidateModel),
}

/// One attempt: the next reduction of the family whose turn it is.
pub open spec fn attempt(
    pre: ReducerModel,
    dictionary: Seq<Seq<u8>>,
    options: CautiousOptions,
    weights: WeightsModel,
) -> (ReducerModel, Attempt) {
    let ready = prepared_reducer(pre, dictionary, options, weights);
    match next_operation(ready.best, ready.states, weights, ready.pressure) {
        None => (ReducerModel { exhausted: true, ..ready }, Attempt::Exhausted),
        Some(i) => {
            let state = ready.states[i];
            let spec = state.specs[state.cursor as int];
            let moved = ReducerModel {
                states: ready.states.update(i, advanced_operation(state)),
                ..ready
            };
            match materialized(
                spec.op,
                pre.best.seed,
                pre.best.case,
                pre.best.prefix,
                dictionary,
            ) {
                None => (moved, Attempt::Skipped),
                Some((whole_case, whole_prefix)) => {
                    let (case, prefix) = cut(whole_case, whole_prefix, pre.best);
                    if prefix == pre.best.prefix || pre.tried.contains(tried_key(prefix)) {
                        (moved, Attempt::Skipped)
                    } else {
                        (
                            ReducerModel {
                                tried: remembered(pre.tried, pre.best.prefix, prefix),
                                ..moved
                            },
                            Attempt::Found(
                                CandidateModel {
                                    case,
                                    mutated: true,
                                    origin: OriginModel::CautiousReduction(
                                        ReductionId {
                                            epoch: pre.epoch,
                                            operation: state.operation,
                                            kind: spec.op.mutation.kind(),
                                            cursor: state.cursor,
                                            start: spec.op.start,
                                            len: spec.op.len,
                                            target: spec.op.target,
                                            fingerprint: fingerprint_of(prefix),
                                        },
                                    ),
                                },
                            ),
                        )
                    }
                },
            }
        },
    }
}

/// Up to `budget` attempts, until one gives a candidate or nothing is left.
pub open spec fn attempts(
    pre: ReducerModel,
    dictionary: Seq<Seq<u8>>,
    options: CautiousOptions,
    weights: WeightsModel,
    budget: nat,
) -> (ReducerModel, Option<CandidateModel>)
    decreases budget,
{
    if budget == 0 {
        (pre, None)
    } else {
        let (post, outcome) = attempt(pre, dictionary, options, weights);
        match outcome {
            Attempt::Exhausted => (post, None),
            Attempt::Found(candidate) => (post, Some(candidate)),
            Attempt::Skipped => attempts(post, dictionary, options, weights, (budget - 1) as nat),
        }
    }
}

/// The next candidate: none once the reducer is exhausted.
pub open spec fn next_reduction(
    pre: ReducerModel,
    dictionary: Seq<Seq<u8>>,
    options: CautiousOptions,
    weights: WeightsModel,
) -> (ReducerModel, Option<CandidateModel>) {
    if pre.exhausted {
        (pre, None)
    } else {
        attempts(pre, dictionary, options, weights, options.reducer_budget as nat)
    }
}

proof fn lemma_attempts_are_mutations(
    pre: ReducerModel,
    dictionary: Seq<Seq<u8>>,
    options: CautiousOptions,
    weights: WeightsModel,
    budget: nat,
)
    ensures
        attempts(pre, dictionary, options, weights, budget).1 matches Some(candidate)
            ==> candidate.mutated && candidate.origin is CautiousReduction,
    decreases budget,
{
    if budget > 0 {
        let (post, outcome) = attempt(pre, dictionary, options, weights);
        if outcome is Skipped {
            lemma_attempts_are_mutations(
                post,
                dictionary,
                options,
                weights,
                (budget - 1) as nat,
            );
        }
    }
}

/// Every candidate of the reducer says that it is a reduction.
pub proof fn reductions_are_mutations(
    pre: ReducerModel,
    dictionary: Seq<Seq<u8>>,
    options: CautiousOptions,
    weights: WeightsModel,
)
    ensures
        next_reduction(pre, dictionary, options, weights).1 matches Some(candidate)
            ==> candidate.mutated && candidate.origin is CautiousReduction,
{
    lemma_attempts_are_mutations(
        pre,
        dictionary,
        options,
        weights,
        options.reducer_budget as nat,
    );
}

/// What came of a candidate that did not become the best case.
#[derive(Debug, Clone, Copy, PartialEq, Eq, Structural)]
pub enum Feedback {
    /// It no longer reproduces.
    Rejected,
    /// It still reproduces.
    Preserved,
}

/// Pressure on a byte after the feedback.
pub open spec fn pressed_byte(pressure: u16, feedback: Feedback) -> u16 {
    match feedback {
        Feedback::Rejected => if pressure + 8 > 0xffff {
            0xffff
        } else {
            (pressure + 8) as u16
        },
        Feedback::Preserved => if pressure <= 2 {
            1
        } else {
            (pressure - 1) as u16
        },
    }
}

/// Pressure after the feedback on `start..start + len`.
pub open spec fn pressed_range(
    pressure: Seq<u16>,
    start: usize,
    len: usize,
    feedback: Feedback,
) -> Seq<u16> {
    Seq::new(
        pressure.len(),
        |i: int|
            if start <= i < start + len {
                pressed_byte(pressure[i], feedback)
            } else {
                pressure[i]
            },
    )
}

/// `count + 1`, or `count` where that is the largest.
pub open spec fn counted(count: u64) -> u64 {
    if count == u64::MAX {
        count
    } else {
        (count + 1) as u64
    }
}

/// The first family that is `operation`.
pub open spec fn first_operation(
    states: Seq<OperationModel>,
    operation: ReductionOperation,
    from: int,
) -> Option<int>
    decreases states.len() - from,
{
    if from < 0 || from >= states.len() {
        None
    } else if states[from].operation == operation {
        Some(from)
    } else {
        first_operation(states, operation, from + 1)
    }
}

/// The families with the feedback counted for `operation`.
pub open spec fn counted_operations(
    states: Seq<OperationModel>,
    operation: ReductionOperation,
    feedback: Feedback,
) -> Seq<OperationModel> {
    match first_operation(states, operation, 0) {
        Some(i) => states.update(
            i,
            match feedback {
                Feedback::Rejected => OperationModel {
                    rejects: counted(states[i].rejects),
                    ..states[i]
                },
                Feedback::Preserved => OperationModel {
                    preserves: counted(states[i].preserves),
                    ..states[i]
                },
            },
        ),
        None => states,
    }
}

/// The reducer after feedback on a candidate; a candidate of an earlier best case, or one that is
/// no reduction, changes nothing.
pub open spec fn after_feedback(
    pre: ReducerModel,
    origin: OriginModel,
    feedback: Feedback,
    weights: WeightsModel,
) -> ReducerModel {
    match origin {
        OriginModel::CautiousReduction(id) if id.epoch == pre.epoch => {
            let pressure = pressed_range(pre.pressure, id.start, id.len, feedback);
            let states = counted_operations(pre.states, id.operation, feedback);
            ReducerModel {
                rejects: if feedback == Feedback::Rejected {
                    counted(pre.rejects)
                } else {
                    pre.rejects
                },
                preserves: if feedback == Feedback::Preserved {
                    counted(pre.preserves)
                } else {
                    pre.preserves
                },
                pressure,
                states: Seq::new(
                    states.len(),
                    |i: int| sorted_operation(states[i], weights, pressure),
                ),
                ..pre
            }
        },
        _ => pre,
    }
}

fn ranking(operation: ReductionOperation) -> (ranking: Ranking)
    ensures
        ranking == ranking_of(operation),
{
    match operation {
        ReductionOperation::SequenceDelete => Ranking::PressureSizeStart,
        ReductionOperation::ScalarGroup => Ranking::ScoreTargetStartLen,
        ReductionOperation::ScalarCommonOffset => Ranking::ScoreTargetStartSizeLen,
        ReductionOperation::ScalarLower => Ranking::PressureStartLenTarget,
        ReductionOperation::DrawLength => Ranking::PressureStartLenTarget,
        ReductionOperation::TailTrim => Ranking::PressureSizeStart,
        ReductionOperation::DrawDelete => Ranking::PressureSizeLateStart,
        ReductionOperation::SequenceProject => Ranking::TargetScoreSizeStart,
        ReductionOperation::SequenceReplace => Ranking::PressureStartTarget,
        ReductionOperation::WeightedBlockDelete => Ranking::PressureSizeStart,
        ReductionOperation::BlockZero => Ranking::PressureSizeStart,
        ReductionOperation::WordLower => Ranking::PressureLenStartTarget,
        ReductionOperation::ByteLower => Ranking::PressureStartTarget,
        ReductionOperation::RepeatedValue => Ranking::Unranked,
        ReductionOperation::DictionaryRepair => Ranking::PressureStartLenTarget,
    }
}

fn tail_rank(weights: &Weights, pressure: &Vec<u16>, spec: &ReductionSpec) -> (key: Vec<u64>)
    requires
        weights@.wf(),
    ensures
        key@ == tail_key(weights@, pressure@, spec@),
{
    let weight: u64 = u64::MAX - weights.of_kind(spec.op.kind());
    let score: u64 = range_score(pressure, spec);
    let size: u64 = u64::MAX - spec.op.simplification as u64;
    let start: u64 = spec.op.start as u64;
    let len: u64 = spec.op.len as u64;
    let target: u64 = spec.op.target;
    let key: Vec<u64> = vec![weight, score, size, start, len, target];
    assert(key@ =~= tail_key(weights@, pressure@, spec@));
    key
}

/// The reductions in the order in which they are to be tried.
fn sort_tail(specs: &Vec<ReductionSpec>, weights: &Weights, pressure: &Vec<u16>) -> (sorted: Vec<
    ReductionSpec,
>)
    requires
        weights@.wf(),
    ensures
        spec_models(sorted@) == sorted_by(spec_models(specs@), tail_keys(weights@, pressure@)),
{
    let mut keys: Vec<Vec<u64>> = Vec::with_capacity(specs.len());
    let mut i: usize = 0;
    while i < specs.len()
        invariant
            i <= specs@.len(),
            weights@.wf(),
            keys@.len() == i,
            forall|k: int|
                0 <= k < i ==> (#[trigger] keys@[k])@ == tail_key(weights@, pressure@, specs@[k]@),
        decreases specs@.len() - i,
    {
        keys.push(tail_rank(weights, pressure, &specs[i]));
        i += 1;
    }
    let order = stable_order(&keys);
    proof {
        lemma_sorted_by_is_arranged(
            spec_models(specs@),
            keys@,
            order@,
            tail_keys(weights@, pressure@),
        );
    }
    arrange(specs, &order)
}

impl ReductionOperationState {
    pub fn new(operation: ReductionOperation) -> (state: ReductionOperationState)
        ensures
            state@ == fresh_operation(operation),
    {
        let state = ReductionOperationState {
            operation,
            specs: Vec::new(),
            cursor: 0,
            rejects: 0,
            preserves: 0,
            drained: false,
        };
        assert(state@ =~= fresh_operation(operation));
        state
    }

    /// Put what is still to be tried in order.
    fn sort_operation_tail(&mut self, pressure: &Vec<u16>, weights: &Weights)
        requires
            weights@.wf(),
        ensures
            final(self)@ == sorted_operation(old(self)@, weights@, pressure@),
    {
        if self.cursor >= self.specs.len() {
            self.drained = true;
            return;
        }
        let ghost all = self.specs@;
        let tail = self.specs.split_off(self.cursor);
        let mut sorted = sort_tail(&tail, weights, pressure);
        let ghost behind = sorted@;
        self.specs.append(&mut sorted);
        proof {
            let at = self.cursor as int;
            assert(spec_models(tail@) =~= spec_models(all).skip(at));
            assert(spec_models(self.specs@) =~= spec_models(all).take(at) + spec_models(behind));
        }
        assert(self@ =~= sorted_operation(old(self)@, weights@, pressure@));
    }
}

fn cut_specs(specs: &mut Vec<ReductionSpec>, limit: usize)
    ensures
        spec_models(final(specs)@) == first_specs(spec_models(old(specs)@), limit),
{
    let ghost before = specs@;
    if specs.len() > limit {
        specs.truncate(limit);
        assert(spec_models(specs@) =~= spec_models(before).take(limit as int));
    }
}

fn insert_key(tried: &mut HashSet<u128>, key: u128)
    ensures
        final(tried)@ == old(tried)@.insert(key),
{
    broadcast use vstd::std_specs::hash::group_hash_axioms;

    tried.insert(key);
}

fn has_key(tried: &HashSet<u128>, key: u128) -> (found: bool)
    ensures
        found == tried@.contains(key),
{
    broadcast use vstd::std_specs::hash::group_hash_axioms;

    tried.contains(&key)
}

fn key_count(tried: &HashSet<u128>) -> (count: usize)
    ensures
        count == tried@.len(),
{
    broadcast use vstd::std_specs::hash::group_hash_axioms;

    tried.len()
}

impl CautiousReducer {
    /// The reducer before there is a best case.
    pub fn new() -> (reducer: CautiousReducer)
        ensures
            reducer@ == idle_reducer(),
    {
        let reducer = CautiousReducer {
            epoch: 0,
            best_index: None,
            best_seed: 0,
            best_case: Trace::empty(0),
            best_prefix: Vec::new(),
            best_draws: Vec::new(),
            best_scalars: Vec::new(),
            best_sequences: Vec::new(),
            operation_states: Vec::new(),
            tried_prefixes: HashSet::new(),
            range_pressure: Vec::new(),
            rejects: 0,
            preserves: 0,
            exhausted: true,
        };
        assert(reducer@ =~= idle_reducer());
        reducer
    }

    /// Start over with entry `index` of the corpus as the best case.
    pub fn reset(
        &mut self,
        index: usize,
        seed: u64,
        case: &Trace,
        prefix: &Vec<u8>,
        draws: &Vec<DrawSpan>,
        scalars: &Vec<ScalarSpan>,
        sequences: &Vec<SequenceSpan>,
    )
        ensures
            final(self)@ == reset_reducer(
                old(self)@,
                index,
                (BestModel {
                    seed,
                    case: case@,
                    prefix: prefix@,
                    draws: draws@,
                    scalars: scalars@,
                    sequences: sequence_models(sequences@),
                }),
            ),
    {
        let epoch: u64 = self.epoch.wrapping_add(1);
        let families: Vec<ReductionOperation> = vec![
            ReductionOperation::SequenceDelete,
            ReductionOperation::ScalarGroup,
            ReductionOperation::ScalarCommonOffset,
            ReductionOperation::ScalarLower,
            ReductionOperation::DrawLength,
            ReductionOperation::TailTrim,
            ReductionOperation::DrawDelete,
            ReductionOperation::SequenceProject,
            ReductionOperation::SequenceReplace,
            ReductionOperation::WeightedBlockDelete,
            ReductionOperation::BlockZero,
            ReductionOperation::WordLower,
            ReductionOperation::ByteLower,
            ReductionOperation::RepeatedValue,
            ReductionOperation::DictionaryRepair,
        ];
        assert(families@ =~= operations());
        let mut operation_states: Vec<ReductionOperationState> = Vec::with_capacity(
            families.len(),
        );
        let mut i: usize = 0;
        while i < families.len()
            invariant
                i <= families@.len(),
                operation_states@.len() == i,
                forall|k: int|
                    0 <= k < i ==> (#[trigger] operation_states@[k])@ == fresh_operation(
                        families@[k],
                    ),
            decreases families@.len() - i,
        {
            operation_states.push(ReductionOperationState::new(families[i]));
            i += 1;
        }
        let mut range_pressure: Vec<u16> = Vec::with_capacity(prefix.len());
        while range_pressure.len() < prefix.len()
            invariant
                range_pressure@.len() <= prefix@.len(),
                forall|k: int|
                    0 <= k < range_pressure@.len() ==> #[trigger] range_pressure@[k] == 1,
            decreases prefix@.len() - range_pressure@.len(),
        {
            range_pressure.push(1);
        }
        let mut tried_prefixes: HashSet<u128> = HashSet::new();
        insert_key(&mut tried_prefixes, prefix_fingerprint(prefix).key());
        *self =
        CautiousReducer {
            epoch,
            best_index: Some(index),
            best_seed: seed,
            best_case: case.clone(),
            best_prefix: copy_bytes(prefix),
            best_draws: copy_draws(draws),
            best_scalars: copy_scalars(scalars),
            best_sequences: copy_sequences(sequences),
            operation_states,
            tried_prefixes,
            range_pressure,
            rejects: 0,
            preserves: 0,
            exhausted: false,
        };
        let ghost best = BestModel {
            seed,
            case: case@,
            prefix: prefix@,
            draws: draws@,
            scalars: scalars@,
            sequences: sequence_models(sequences@),
        };
        assert(self@.states =~= reset_reducer(old(self)@, index, best).states);
        assert(self@.pressure =~= reset_reducer(old(self)@, index, best).pressure);
        assert(self@ =~= reset_reducer(old(self)@, index, best));
    }

    /// The reductions of a family, in its order, as many as are kept.
    fn reduction_specs(
        &self,
        operation: ReductionOperation,
        dictionary: &Vec<Vec<u8>>,
        options: CautiousOptions,
    ) -> (specs: Vec<ReductionSpec>)
        ensures
            spec_models(specs@) == family_specs(
                operation,
                self@.best,
                byte_lists(dictionary@),
                self@.pressure,
                options,
            ),
    {
        let prefix = &self.best_prefix;
        let nothing: Vec<ReductionSpec> = Vec::new();
        assert(spec_models(nothing@) =~= Seq::<SpecModel>::empty());
        let found = match operation {
            ReductionOperation::SequenceDelete => if options.range_reductions {
                sequence_delete_specs(prefix, &self.best_sequences, options.range_limit)
            } else {
                nothing
            },
            ReductionOperation::SequenceProject => if options.range_reductions {
                sequence_project_specs(prefix, &self.best_sequences, options.range_limit)
            } else {
                nothing
            },
            ReductionOperation::SequenceReplace => if options.range_reductions {
                sequence_replace_specs(prefix, &self.best_sequences, options.range_limit)
            } else {
                nothing
            },
            ReductionOperation::ScalarGroup => scalar_group_specs(
                prefix,
                &self.best_scalars,
                &self.range_pressure,
                options.draw_limit,
            ),
            ReductionOperation::ScalarCommonOffset => scalar_common_offset_specs(
                prefix,
                &self.best_scalars,
                options.draw_limit,
            ),
            ReductionOperation::ScalarLower => scalar_lower_specs(
                prefix,
                &self.best_scalars,
                options.draw_limit,
            ),
            ReductionOperation::DrawLength => draw_length_specs(
                prefix,
                &self.best_draws,
                options.draw_limit,
            ),
            ReductionOperation::TailTrim => tail_trim_specs(prefix),
            ReductionOperation::DrawDelete => draw_delete_specs(
                prefix,
                &self.best_draws,
                options.draw_limit,
            ),
            ReductionOperation::WeightedBlockDelete => weighted_block_delete_specs(prefix),
            ReductionOperation::BlockZero => block_zero_specs(prefix),
            ReductionOperation::WordLower => word_lower_specs(
                prefix,
                &self.best_draws,
                options.draw_limit,
            ),
            ReductionOperation::ByteLower => byte_lower_specs(prefix),
            ReductionOperation::RepeatedValue => repeated_value_specs(prefix),
            ReductionOperation::DictionaryRepair => dictionary_repair_specs(prefix, dictionary),
        };
        let mut specs = sort_specs(found, ranking(operation), &self.range_pressure);
        cut_specs(&mut specs, options.operation_candidate_limit);
        specs
    }

    /// Make the reductions of every family that has none yet.
    fn prepare_operation_states(
        &mut self,
        dictionary: &Vec<Vec<u8>>,
        options: CautiousOptions,
        weights: &Weights,
    )
        requires
            weights@.wf(),
        ensures
            final(self)@ == prepared_reducer(old(self)@, byte_lists(dictionary@), options, weights@),
    {
        let ghost pre = self@;
        let ghost lists = byte_lists(dictionary@);
        let ghost post = prepared_reducer(pre, lists, options, weights@);
        let count: usize = self.operation_states.len();
        let mut i: usize = 0;
        while i < count
            invariant
                weights@.wf(),
                lists == byte_lists(dictionary@),
                post == prepared_reducer(pre, lists, options, weights@),
                count == pre.states.len(),
                i <= count,
                self@ == (ReducerModel { states: self@.states, ..pre }),
                self@.states.len() == count,
                self.operation_states@.len() == count,
                forall|k: int| 0 <= k < i ==> #[trigger] self@.states[k] == post.states[k],
                forall|k: int| i <= k < count ==> #[trigger] self@.states[k] == pre.states[k],
            decreases count - i,
        {
            assert(self@.states[i as int] == self.operation_states@[i as int]@);
            assert(self@.states[i as int] == pre.states[i as int]);
            let ghost before = self@.states;
            if !self.operation_states[i].drained && self.operation_states[i].specs.len() == 0 {
                let operation = self.operation_states[i].operation;
                let specs = self.reduction_specs(operation, dictionary, options);
                let mut state = ReductionOperationState {
                    operation,
                    specs,
                    cursor: self.operation_states[i].cursor,
                    rejects: self.operation_states[i].rejects,
                    preserves: self.operation_states[i].preserves,
                    drained: self.operation_states[i].drained,
                };
                state.sort_operation_tail(&self.range_pressure, weights);
                state.drained = state.specs.len() == 0;
                assert(state@ =~= post.states[i as int]);
                let ghost made = state@;
                self.operation_states.set(i, state);
                assert(self@.states =~= before.update(i as int, made));
            }
            i += 1;
        }
        assert(self@.states =~= post.states);
        assert(self@ =~= post);
    }

    /// The family whose next reduction is a length of the first draw, if there is one.
    fn first_length_index(&self) -> (index: Option<usize>)
        ensures
            match index {
                Some(index) => {
                    &&& index < self@.states.len()
                    &&& has_next(self@.states[index as int])
                    &&& first_length(self@.states, self@.states.len() as int) == Some(index as int)
                },
                None => first_length(self@.states, self@.states.len() as int) is None,
            },
    {
        let ghost states = self@.states;
        let count: usize = self.operation_states.len();
        let mut found: Option<usize> = None;
        let mut i: usize = 0;
        while i < count
            invariant
                states == self@.states,
                count == self.operation_states@.len(),
                count == states.len(),
                i <= count,
                match found {
                    Some(index) => {
                        &&& index < i
                        &&& has_next(states[index as int])
                        &&& first_length(states, i as int) == Some(index as int)
                    },
                    None => first_length(states, i as int) is None,
                },
            decreases count - i,
        {
            assert(states[i as int] == self.operation_states@[i as int]@);
            let state = &self.operation_states[i];
            let is_length: bool = match state.operation {
                ReductionOperation::DrawLength => !state.drained && state.cursor
                    < state.specs.len() && state.specs[state.cursor].op.start == 0,
                _ => false,
            };
            if is_length && found.is_none() {
                found = Some(i);
            }
            i += 1;
        }
        found
    }

    /// The family whose turn it is.
    fn next_operation_index(&self, weights: &Weights) -> (index: Option<usize>)
        requires
            weights@.wf(),
        ensures
            match index {
                Some(index) => {
                    &&& index < self@.states.len()
                    &&& has_next(self@.states[index as int])
                    &&& next_operation(
                        self@.best,
                        self@.states,
                        weights@,
                        self@.pressure,
                    ) == Some(index as int)
                },
                None => next_operation(
                    self@.best,
                    self@.states,
                    weights@,
                    self@.pressure,
                ) is None,
            },
    {
        let best = self.best_operation_index(weights);
        if let Some(index) = best {
            assert(self@.states[index as int] == self.operation_states@[index as int]@);
            if self.best_scalars.len() == 0 && self.best_sequences.len() == 0
                && self.operation_states[index].operation.structure_rank() >= 3 {
                if let Some(length) = self.first_length_index() {
                    return Some(length);
                }
            }
        }
        best
    }

    /// The family whose next reduction is the most promising.
    fn best_operation_index(&self, weights: &Weights) -> (index: Option<usize>)
        requires
            weights@.wf(),
        ensures
            match index {
                Some(index) => {
                    &&& index < self@.states.len()
                    &&& has_next(self@.states[index as int])
                    &&& best_operation(
                        self@.states,
                        weights@,
                        self@.pressure,
                        self@.states.len() as int,
                    ) == Some(index as int)
                },
                None => best_operation(
                    self@.states,
                    weights@,
                    self@.pressure,
                    self@.states.len() as int,
                ) is None,
            },
    {
        let ghost states = self@.states;
        let count: usize = self.operation_states.len();
        let mut best: Option<usize> = None;
        let mut best_key: Vec<u64> = Vec::new();
        let mut i: usize = 0;
        while i < count
            invariant
                weights@.wf(),
                states == self@.states,
                count == self.operation_states@.len(),
                count == states.len(),
                i <= count,
                match best {
                    Some(index) => {
                        &&& index < i
                        &&& has_next(states[index as int])
                        &&& best_operation(states, weights@, self@.pressure, i as int) == Some(
                            index as int,
                        )
                        &&& best_key@ == priority(states[index as int], weights@, self@.pressure)
                    },
                    None => best_operation(states, weights@, self@.pressure, i as int) is None,
                },
            decreases count - i,
        {
            assert(states[i as int] == self.operation_states@[i as int]@);
            let state = &self.operation_states[i];
            if !state.drained && state.cursor < state.specs.len() {
                let key = self.candidate_priority(i, weights);
                let better: bool = match best {
                    Some(_) => less_keys(&key, &best_key),
                    None => true,
                };
                if better {
                    best = Some(i);
                    best_key = key;
                }
            }
            i += 1;
        }
        best
    }

    /// How promising the next reduction of family `index` is.
    fn candidate_priority(&self, index: usize, weights: &Weights) -> (key: Vec<u64>)
        requires
            weights@.wf(),
            index < self@.states.len(),
            has_next(self@.states[index as int]),
        ensures
            key@ == priority(self@.states[index as int], weights@, self@.pressure),
    {
        assert(self@.states[index as int] == self.operation_states@[index as int]@);
        let state = &self.operation_states[index];
        let spec = &state.specs[state.cursor];
        let family: u64 = u64::MAX - weights.of_operation(state.operation);
        let penalty: u64 = state.rejects.saturating_sub(state.preserves);
        let weight: u64 = u64::MAX - weights.of_kind(spec.op.kind());
        let score: u64 = range_score(&self.range_pressure, spec);
        let structure: u64 = state.operation.structure_rank() as u64;
        let size: u64 = u64::MAX - spec.op.simplification as u64;
        let stable: u64 = state.operation.stable_rank() as u64;
        let start: u64 = spec.op.start as u64;
        let len: u64 = spec.op.len as u64;
        let target: u64 = spec.op.target;
        let key: Vec<u64> = vec![
            family,
            penalty,
            weight,
            score,
            structure,
            size,
            stable,
            start,
            len,
            target,
        ];
        assert(key@ =~= priority(self@.states[index as int], weights@, self@.pressure));
        key
    }

    /// Take the next reduction of family `index`.
    fn advance(&mut self, index: usize)
        requires
            index < old(self)@.states.len(),
            has_next(old(self)@.states[index as int]),
        ensures
            final(self)@ == (ReducerModel {
                states: old(self)@.states.update(
                    index as int,
                    advanced_operation(old(self)@.states[index as int]),
                ),
                ..old(self)@
            }),
    {
        let ghost before = self@.states;
        assert(before[index as int] == self.operation_states@[index as int]@);
        let cursor: usize = self.operation_states[index].cursor;
        let count: usize = self.operation_states[index].specs.len();
        self.operation_states[index].cursor = cursor + 1;
        if cursor + 1 >= count {
            self.operation_states[index].drained = true;
        }
        assert(self@.states =~= before.update(
            index as int,
            advanced_operation(before[index as int]),
        ));
    }

    /// One attempt: `None` where it gave nothing and more may follow.
    fn attempt_once(
        &mut self,
        dictionary: &Vec<Vec<u8>>,
        options: CautiousOptions,
        weights: &Weights,
    ) -> (outcome: Option<Option<Candidate>>)
        requires
            weights@.wf(),
        ensures
            final(self)@ == attempt(old(self)@, byte_lists(dictionary@), options, weights@).0,
            match (attempt(old(self)@, byte_lists(dictionary@), options, weights@).1) {
                Attempt::Exhausted => outcome matches Some(found) && found is None,
                Attempt::Skipped => outcome is None,
                Attempt::Found(model) => outcome matches Some(found) && found matches Some(
                    candidate,
                ) && candidate@ == model,
            },
    {
        let ghost pre = self@;
        self.prepare_operation_states(dictionary, options, weights);
        let index: usize = match self.next_operation_index(weights) {
            Some(index) => index,
            None => {
                self.exhausted = true;
                return Some(None);
            },
        };
        assert(self@.states[index as int] == self.operation_states@[index as int]@);
        let operation = self.operation_states[index].operation;
        let cursor: usize = self.operation_states[index].cursor;
        let spec = self.operation_states[index].specs[cursor].clone();
        self.advance(index);
        let (mut case, mut prefix) = match spec.op.materialize(
            self.best_seed,
            &self.best_case,
            &self.best_prefix,
            dictionary,
        ) {
            Some(reduced) => reduced,
            None => {
                return None;
            },
        };
        let ghost (cut_case, cut_prefix) = cut(case@, prefix@, pre.best);
        if prefix.len() > MAX_PREFIX_LEN {
            prefix.truncate(MAX_PREFIX_LEN);
            case = Trace::from_raw_parts(
                self.best_seed,
                copy_bytes(&prefix),
                self.best_case.zero_tail,
            );
        }
        assert(case@ == cut_case);
        assert(prefix@ =~= cut_prefix);
        if same_bytes(&prefix, &self.best_prefix) {
            return None;
        }
        let fingerprint = prefix_fingerprint(&prefix);
        if has_key(&self.tried_prefixes, fingerprint.key()) {
            return None;
        }
        if key_count(&self.tried_prefixes) >= MAX_REDUCER_TRIED_PREFIXES {
            let mut tried: HashSet<u128> = HashSet::new();
            insert_key(&mut tried, prefix_fingerprint(&self.best_prefix).key());
            self.tried_prefixes = tried;
        }
        insert_key(&mut self.tried_prefixes, fingerprint.key());
        assert(self@.tried =~= remembered(pre.tried, pre.best.prefix, cut_prefix));
        let id = ReductionId {
            epoch: self.epoch,
            operation,
            kind: spec.op.kind(),
            cursor,
            start: spec.op.start,
            len: spec.op.len,
            target: spec.op.target,
            fingerprint,
        };
        Some(
            Some(
                Candidate { case, mutated: true, origin: CandidateOrigin::CautiousReduction(id) },
            ),
        )
    }

    /// The next reduction of the best case that leads somewhere new.
    pub fn next_candidate(
        &mut self,
        dictionary: &Vec<Vec<u8>>,
        options: CautiousOptions,
        weights: &Weights,
    ) -> (candidate: Option<Candidate>)
        requires
            weights@.wf(),
        ensures
            final(self)@ == next_reduction(
                old(self)@,
                byte_lists(dictionary@),
                options,
                weights@,
            ).0,
            match candidate {
                Some(candidate) => next_reduction(
                    old(self)@,
                    byte_lists(dictionary@),
                    options,
                    weights@,
                ).1 == Some(candidate@),
                None => next_reduction(
                    old(self)@,
                    byte_lists(dictionary@),
                    options,
                    weights@,
                ).1 is None,
            },
    {
        if self.exhausted {
            return None;
        }
        let ghost pre = self@;
        let ghost lists = byte_lists(dictionary@);
        let ghost whole = attempts(pre, lists, options, weights@, options.reducer_budget as nat);
        let mut left: usize = options.reducer_budget;
        while left > 0
            invariant
                weights@.wf(),
                lists == byte_lists(dictionary@),
                whole == attempts(pre, lists, options, weights@, options.reducer_budget as nat),
                whole == attempts(self@, lists, options, weights@, left as nat),
                whole == next_reduction(pre, lists, options, weights@),
                pre == old(self)@,
            decreases left,
        {
            match self.attempt_once(dictionary, options, weights) {
                Some(outcome) => {
                    return outcome;
                },
                None => {},
            }
            left -= 1;
        }
        None
    }

    /// Learn from a candidate that no longer reproduces.
    pub fn record_discard(&mut self, origin: &CandidateOrigin, weights: &Weights)
        requires
            weights@.wf(),
        ensures
            final(self)@ == after_feedback(old(self)@, origin@, Feedback::Rejected, weights@),
    {
        self.record(origin, Feedback::Rejected, weights);
    }

    /// Learn from a candidate that still reproduces but is no better.
    pub fn record_preserved(&mut self, origin: &CandidateOrigin, weights: &Weights)
        requires
            weights@.wf(),
        ensures
            final(self)@ == after_feedback(old(self)@, origin@, Feedback::Preserved, weights@),
    {
        self.record(origin, Feedback::Preserved, weights);
    }

    fn record(&mut self, origin: &CandidateOrigin, feedback: Feedback, weights: &Weights)
        requires
            weights@.wf(),
        ensures
            final(self)@ == after_feedback(old(self)@, origin@, feedback, weights@),
    {
        let ghost pre = self@;
        let id = match origin {
            CandidateOrigin::CautiousReduction(id) => *id,
            _ => {
                return;
            },
        };
        if id.epoch != self.epoch {
            return;
        }
        if feedback == Feedback::Rejected {
            self.rejects = self.rejects.saturating_add(1);
        } else {
            self.preserves = self.preserves.saturating_add(1);
        }
        self.count_operation(id.operation, feedback);
        self.apply_range_feedback(id.start, id.len, feedback);
        self.sort_operation_tails(weights);
        assert(self@ =~= after_feedback(pre, origin@, feedback, weights@));
    }

    /// Count the feedback for a family.
    fn count_operation(&mut self, operation: ReductionOperation, feedback: Feedback)
        ensures
            final(self)@ == (ReducerModel {
                states: counted_operations(old(self)@.states, operation, feedback),
                ..old(self)@
            }),
    {
        let ghost states = self@.states;
        let count: usize = self.operation_states.len();
        let mut i: usize = 0;
        while i < count
            invariant
                i <= count,
                count == self.operation_states@.len(),
                states == self@.states,
                self@ == old(self)@,
                first_operation(states, operation, 0) == first_operation(
                    states,
                    operation,
                    i as int,
                ),
            decreases count - i,
        {
            assert(states[i as int] == self.operation_states@[i as int]@);
            if self.operation_states[i].operation == operation {
                if feedback == Feedback::Rejected {
                    let rejects: u64 = self.operation_states[i].rejects;
                    self.operation_states[i].rejects = rejects.saturating_add(1);
                } else {
                    let preserves: u64 = self.operation_states[i].preserves;
                    self.operation_states[i].preserves = preserves.saturating_add(1);
                }
                assert(self@.states =~= counted_operations(states, operation, feedback));
                return;
            }
            i += 1;
        }
    }

    /// Press on `start..start + len`, or ease it.
    fn apply_range_feedback(&mut self, start: usize, len: usize, feedback: Feedback)
        ensures
            final(self)@ == (ReducerModel {
                pressure: pressed_range(old(self)@.pressure, start, len, feedback),
                ..old(self)@
            }),
    {
        let ghost before = self@.pressure;
        let total: usize = self.range_pressure.len();
        if len == 0 || start >= total {
            assert(self@.pressure =~= pressed_range(before, start, len, feedback));
            return;
        }
        let end: usize = if len <= total - start {
            start + len
        } else {
            total
        };
        let ghost pre = self@;
        let mut i: usize = start;
        while i < end
            invariant
                start <= i <= end <= total,
                total == self.range_pressure@.len(),
                total == before.len(),
                self@ == (ReducerModel { pressure: self@.pressure, ..pre }),
                forall|k: int|
                    0 <= k < total ==> #[trigger] self.range_pressure@[k] == if start <= k < i {
                        pressed_byte(before[k], feedback)
                    } else {
                        before[k]
                    },
            decreases end - i,
        {
            let pressure: u16 = self.range_pressure[i];
            let next: u16 = if feedback == Feedback::Rejected {
                pressure.saturating_add(8)
            } else if pressure <= 2 {
                1
            } else {
                pressure - 1
            };
            self.range_pressure.set(i, next);
            i += 1;
        }
        assert(self@.pressure =~= pressed_range(before, start, len, feedback));
    }

    /// Put what is still to be tried of every family in order.
    fn sort_operation_tails(&mut self, weights: &Weights)
        requires
            weights@.wf(),
        ensures
            final(self)@ == (ReducerModel {
                states: Seq::new(
                    old(self)@.states.len(),
                    |i: int|
                        sorted_operation(old(self)@.states[i], weights@, old(self)@.pressure),
                ),
                ..old(self)@
            }),
    {
        let ghost pre = self@;
        let count: usize = self.operation_states.len();
        let mut i: usize = 0;
        while i < count
            invariant
                weights@.wf(),
                i <= count,
                count == self.operation_states@.len(),
                count == pre.states.len(),
                self@ == (ReducerModel { states: self@.states, ..pre }),
                self@.states.len() == count,
                forall|k: int|
                    0 <= k < i ==> #[trigger] self@.states[k] == sorted_operation(
                        pre.states[k],
                        weights@,
                        pre.pressure,
                    ),
                forall|k: int| i <= k < count ==> #[trigger] self@.states[k] == pre.states[k],
            decreases count - i,
        {
            let ghost before = self@.states;
            assert(before[i as int] == self.operation_states@[i as int]@);
            self.operation_states[i].sort_operation_tail(&self.range_pressure, weights);
            assert(self@.states =~= before.update(
                i as int,
                sorted_operation(before[i as int], weights@, pre.pressure),
            ));
            i += 1;
        }
        assert(self@.states =~= Seq::new(
            pre.states.len(),
            |i: int| sorted_operation(pre.states[i], weights@, pre.pressure),
        ));
    }
}

/// The paths are equal.
pub fn same_bytes(a: &Vec<u8>, b: &Vec<u8>) -> (same: bool)
    ensures
        same == (a@ == b@),
{
    if a.len() != b.len() {
        return false;
    }
    let mut i: usize = 0;
    while i < a.len()
        invariant
            i <= a@.len(),
            a@.len() == b@.len(),
            forall|k: int| 0 <= k < i ==> a@[k] == b@[k],
        decreases a@.len() - i,
    {
        if a[i] != b[i] {
            return false;
        }
        i += 1;
    }
    assert(a@ =~= b@);
    true
}

/// A candidate of the reducer is new: its path is not the best one, was not tried, is remembered
/// from now on, and is not too long.
pub proof fn reductions_are_new(
    pre: ReducerModel,
    dictionary: Seq<Seq<u8>>,
    options: CautiousOptions,
    weights: WeightsModel,
)
    ensures
        next_reduction(pre, dictionary, options, weights).0.best == pre.best,
        next_reduction(pre, dictionary, options, weights).0.epoch == pre.epoch,
        match next_reduction(pre, dictionary, options, weights).1 {
            Some(candidate) => {
                let path = candidate.case.bytes();
                &&& candidate.mutated
                &&& path != pre.best.prefix
                &&& path.len() <= MAX_PREFIX_LEN
                &&& !pre.tried.contains(tried_key(path))
                &&& next_reduction(pre, dictionary, options, weights).0.tried.contains(
                    tried_key(path),
                )
                &&& candidate.origin matches OriginModel::CautiousReduction(id) && id.epoch
                    == pre.epoch && id.fingerprint == fingerprint_of(path)
            },
            None => next_reduction(pre, dictionary, options, weights).0.tried == pre.tried,
        },
{
    if !pre.exhausted {
        lemma_attempts_are_new(pre, dictionary, options, weights, options.reducer_budget as nat);
    }
}

proof fn lemma_attempts_are_new(
    pre: ReducerModel,
    dictionary: Seq<Seq<u8>>,
    options: CautiousOptions,
    weights: WeightsModel,
    budget: nat,
)
    ensures
        attempts(pre, dictionary, options, weights, budget).0.best == pre.best,
        attempts(pre, dictionary, options, weights, budget).0.epoch == pre.epoch,
        match attempts(pre, dictionary, options, weights, budget).1 {
            Some(candidate) => {
                let path = candidate.case.bytes();
                &&& candidate.mutated
                &&& path != pre.best.prefix
                &&& path.len() <= MAX_PREFIX_LEN
                &&& !pre.tried.contains(tried_key(path))
                &&& attempts(pre, dictionary, options, weights, budget).0.tried.contains(
                    tried_key(path),
                )
                &&& candidate.origin matches OriginModel::CautiousReduction(id) && id.epoch
                    == pre.epoch && id.fingerprint == fingerprint_of(path)
            },
            None => attempts(pre, dictionary, options, weights, budget).0.tried == pre.tried,
        },
    decreases budget,
{
    if budget > 0 {
        let (post, outcome) = attempt(pre, dictionary, options, weights);
        match outcome {
            Attempt::Exhausted => {},
            Attempt::Found(candidate) => {},
            Attempt::Skipped => {
                lemma_attempts_are_new(post, dictionary, options, weights, (budget - 1) as nat);
            },
        }
    }
}

/// Whatever came of a candidate, the next one has another path.
pub proof fn no_path_is_tried_twice(
    pre: ReducerModel,
    dictionary: Seq<Seq<u8>>,
    more: Seq<Seq<u8>>,
    options: CautiousOptions,
    weights: WeightsModel,
    changed: WeightsModel,
    feedback: Feedback,
)
    ensures
        ({
            let (post, first) = next_reduction(pre, dictionary, options, weights);
            first matches Some(one) ==> {
                let learned = after_feedback(post, one.origin, feedback, changed);
                next_reduction(learned, more, options, changed).1 matches Some(two)
                    ==> two.case.bytes() != one.case.bytes()
            }
        }),
{
    reductions_are_new(pre, dictionary, options, weights);
    let (post, first) = next_reduction(pre, dictionary, options, weights);
    if let Some(one) = first {
        let learned = after_feedback(post, one.origin, feedback, changed);
        reductions_are_new(learned, more, options, changed);
    }
}

/// No byte is ever free of pressure, so a range always has a weight.
pub open spec fn under_pressure(reducer: ReducerModel) -> bool {
    forall|i: int| 0 <= i < reducer.pressure.len() ==> #[trigger] reducer.pressure[i] >= 1
}

/// The pressure starts at one, and neither feedback nor candidates bring it below.
pub proof fn pressure_stays(
    pre: ReducerModel,
    index: usize,
    best: BestModel,
    origin: OriginModel,
    feedback: Feedback,
    weights: WeightsModel,
)
    ensures
        under_pressure(reset_reducer(pre, index, best)),
        under_pressure(pre) ==> under_pressure(after_feedback(pre, origin, feedback, weights)),
{
}

} // verus!
