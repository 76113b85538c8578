//! How much the kinds of rewrites and the families of reductions count.

use crate::mutation::{MutationKind, MUTATION_KINDS};
use crate::reduction::{ReductionOperation, REDUCTION_OPERATION_COUNT};
use vstd::prelude::*;

verus! {

/// The key of a weight of one: weights are kept in millionths.
pub const UNIT_KEY: u64 = 1_000_000;

/// The weight of each kind of rewrite and each family of reductions, in millionths.
#[derive(Debug, PartialEq, Eq)]
pub struct Weights {
    pub mutation: Vec<u64>,
    pub reduction: Vec<u64>,
}

/// Weights by their contents.
#[verifier::ext_equal]
pub struct WeightsModel {
    pub mutation: Seq<u64>,
    pub reduction: Seq<u64>,
}

impl View for Weights {
    type V = WeightsModel;

    open spec fn view(&self) -> WeightsModel {
        WeightsModel { mutation: self.mutation@, reduction: self.reduction@ }
    }
}

impl WeightsModel {
    /// There is a weight for everything.
    pub open spec fn wf(self) -> bool {
        self.mutation.len() == MUTATION_KINDS && self.reduction.len() == REDUCTION_OPERATION_COUNT
    }

    /// Weights that all count the same.
    pub open spec fn units() -> WeightsModel {
        WeightsModel {
            mutation: Seq::new(MUTATION_KINDS as nat, |i: int| UNIT_KEY),
            reduction: Seq::new(REDUCTION_OPERATION_COUNT as nat, |i: int| UNIT_KEY),
        }
    }

    /// Weight of a kind of rewrite.
    pub open spec fn of_kind(self, kind: MutationKind) -> u64 {
        self.mutation[kind.index_spec()]
    }

    /// Weight of a family of reductions.
    pub open spec fn of_operation(self, operation: ReductionOperation) -> u64 {
        self.reduction[operation.index_spec()]
    }
}

impl Weights {
    /// Everything counts the same.
    pub fn new() -> (weights: Weights)
        ensures
            weights@.wf(),
            weights@ == WeightsModel::units(),
            forall|kind: MutationKind| #[trigger] weights@.of_kind(kind) == UNIT_KEY,
            forall|operation: ReductionOperation| #[trigger]
                weights@.of_operation(operation) == UNIT_KEY,
    {
        let mut mutation: Vec<u64> = Vec::with_capacity(MUTATION_KINDS);
        while mutation.len() < MUTATION_KINDS
            invariant
                mutation@.len() <= MUTATION_KINDS,
                forall|i: int| 0 <= i < mutation@.len() ==> #[trigger] mutation@[i] == UNIT_KEY,
            decreases MUTATION_KINDS - mutation@.len(),
        {
            mutation.push(UNIT_KEY);
        }
        let mut reduction: Vec<u64> = Vec::with_capacity(REDUCTION_OPERATION_COUNT);
        while reduction.len() < REDUCTION_OPERATION_COUNT
            invariant
                reduction@.len() <= REDUCTION_OPERATION_COUNT,
                forall|i: int| 0 <= i < reduction@.len() ==> #[trigger] reduction@[i] == UNIT_KEY,
            decreases REDUCTION_OPERATION_COUNT - reduction@.len(),
        {
            reduction.push(UNIT_KEY);
        }
        let weights = Weights { mutation, reduction };
        assert(weights@ =~= WeightsModel::units());
        weights
    }

    /// Weight of a kind of rewrite.
    pub fn of_kind(&self, kind: MutationKind) -> (key: u64)
        requires
            self@.wf(),
        ensures
            key == self@.of_kind(kind),
    {
        self.mutation[kind.index()]
    }

    /// Weight of a family of reductions.
    pub fn of_operation(&self, operation: ReductionOperation) -> (key: u64)
        requires
            self@.wf(),
        ensures
            key == self@.of_operation(operation),
    {
        self.reduction[operation.index()]
    }

    /// Give a kind of rewrite another weight.
    pub fn set_kind(&mut self, kind: MutationKind, key: u64)
        requires
            old(self)@.wf(),
        ensures
            final(self)@ == (WeightsModel {
                mutation: old(self)@.mutation.update(kind.index_spec(), key),
                ..old(self)@
            }),
            final(self)@.wf(),
    {
        self.mutation.set(kind.index(), key);
    }

    /// Give a family of reductions another weight.
    pub fn set_operation(&mut self, operation: ReductionOperation, key: u64)
        requires
            old(self)@.wf(),
        ensures
            final(self)@ == (WeightsModel {
                reduction: old(self)@.reduction.update(operation.index_spec(), key),
                ..old(self)@
            }),
            final(self)@.wf(),
    {
        self.reduction.set(operation.index(), key);
    }
}

/// A family of reductions, and the percentage that its weight is to become.
#[derive(Debug, Clone, Copy, PartialEq, Eq, Structural)]
pub struct Credit {
    pub operation: ReductionOperation,
    pub percent: u64,
}

/// What a reduction that made the best case better earns. Moving a group of scalars pays off
/// for moving its members too.
pub open spec fn improvement_credits(operation: ReductionOperation) -> Seq<Credit> {
    let own = Credit { operation, percent: 300 };
    match operation {
        ReductionOperation::ScalarGroup => seq![
            own,
            Credit { operation: ReductionOperation::ScalarCommonOffset, percent: 150 },
            Credit { operation: ReductionOperation::ScalarLower, percent: 200 },
        ],
        ReductionOperation::ScalarCommonOffset => seq![
            own,
            Credit { operation: ReductionOperation::ScalarLower, percent: 400 },
        ],
        _ => seq![own],
    }
}

/// What a reduction that made the best case better earns.
pub fn reward_improved(operation: ReductionOperation) -> (credits: Vec<Credit>)
    ensures
        credits@ == improvement_credits(operation),
{
    let mut credits: Vec<Credit> = Vec::new();
    credits.push(Credit { operation, percent: 300 });
    match operation {
        ReductionOperation::ScalarGroup => {
            credits.push(
                Credit { operation: ReductionOperation::ScalarCommonOffset, percent: 150 },
            );
            credits.push(Credit { operation: ReductionOperation::ScalarLower, percent: 200 });
        },
        ReductionOperation::ScalarCommonOffset => {
            credits.push(Credit { operation: ReductionOperation::ScalarLower, percent: 400 });
        },
        _ => {},
    }
    assert(credits@ =~= improvement_credits(operation));
    credits
}

/// What a reduction that was accepted and is no better earns.
pub fn reward_preserved(operation: ReductionOperation) -> (credit: Credit)
    ensures
        credit == (Credit { operation, percent: 115 }),
{
    Credit { operation, percent: 115 }
}

/// What a reduction that was not accepted loses.
pub fn penalize_rejected(operation: ReductionOperation) -> (credit: Credit)
    ensures
        credit == (Credit { operation, percent: 50 }),
{
    Credit { operation, percent: 50 }
}

/// Two kinds, and two families, have weights of their own.
pub proof fn weights_are_separate(
    weights: WeightsModel,
    a: MutationKind,
    b: MutationKind,
    x: ReductionOperation,
    y: ReductionOperation,
    key: u64,
)
    requires
        weights.wf(),
        a != b,
        x != y,
    ensures
        (WeightsModel { mutation: weights.mutation.update(a.index_spec(), key), ..weights }).of_kind(
            b,
        ) == weights.of_kind(b),
        (WeightsModel {
            reduction: weights.reduction.update(x.index_spec(), key),
            ..weights
        }).of_operation(y) == weights.of_operation(y),
{
}

} // verus!
