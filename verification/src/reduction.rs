//! One reduction of a case: a rewrite, the bytes it concerns, and how much it simplifies.

use crate::mutation::{
    byte_lists, mutated, ByteMutation, FirstByteAdjustment, KeptItem, MutationKind, MutationModel,
    ReplaceMode, ScalarRankWrite,
};
use crate::rewrite::{rewritten_trace, sat};
use crate::trace::{copy_bytes, NodeModel, Trace, TraceModel};
use vstd::prelude::*;

verus! {

/// A family of reductions.
#[derive(Debug, Clone, Copy, PartialEq, Eq, Structural)]
pub enum ReductionOperation {
    ScalarGroup,
    ScalarCommonOffset,
    ScalarLower,
    DrawLength,
    TailTrim,
    DrawDelete,
    WeightedBlockDelete,
    BlockZero,
    WordLower,
    ByteLower,
    RepeatedValue,
    DictionaryRepair,
    SequenceDelete,
    SequenceProject,
    SequenceReplace,
}

/// Number of families.
pub const REDUCTION_OPERATION_COUNT: usize = 15;

impl ReductionOperation {
    /// Place of the family among all families.
    pub open spec fn index_spec(self) -> int {
        match self {
            ReductionOperation::ScalarGroup => 0,
            ReductionOperation::ScalarCommonOffset => 1,
            ReductionOperation::ScalarLower => 2,
            ReductionOperation::DrawLength => 3,
            ReductionOperation::TailTrim => 4,
            ReductionOperation::DrawDelete => 5,
            ReductionOperation::WeightedBlockDelete => 6,
            ReductionOperation::BlockZero => 7,
            ReductionOperation::WordLower => 8,
            ReductionOperation::ByteLower => 9,
            ReductionOperation::RepeatedValue => 10,
            ReductionOperation::DictionaryRepair => 11,
            ReductionOperation::SequenceDelete => 12,
            ReductionOperation::SequenceProject => 13,
            ReductionOperation::SequenceReplace => 14,
        }
    }

    /// Place of the family among all families.
    pub fn index(self) -> (index: usize)
        ensures
            index == self.index_spec(),
            index < REDUCTION_OPERATION_COUNT,
    {
        match self {
            ReductionOperation::ScalarGroup => 0,
            ReductionOperation::ScalarCommonOffset => 1,
            ReductionOperation::ScalarLower => 2,
            ReductionOperation::DrawLength => 3,
            ReductionOperation::TailTrim => 4,
            ReductionOperation::DrawDelete => 5,
            ReductionOperation::WeightedBlockDelete => 6,
            ReductionOperation::BlockZero => 7,
            ReductionOperation::WordLower => 8,
            ReductionOperation::ByteLower => 9,
            ReductionOperation::RepeatedValue => 10,
            ReductionOperation::DictionaryRepair => 11,
            ReductionOperation::SequenceDelete => 12,
            ReductionOperation::SequenceProject => 13,
            ReductionOperation::SequenceReplace => 14,
        }
    }

    /// Reductions of the structure come first, then those of values.
    pub open spec fn structure_rank_spec(self) -> u8 {
        match self {
            ReductionOperation::SequenceDelete
            | ReductionOperation::SequenceProject
            | ReductionOperation::SequenceReplace => 0,
            ReductionOperation::ScalarGroup
            | ReductionOperation::ScalarCommonOffset
            | ReductionOperation::ScalarLower => 1,
            ReductionOperation::DrawLength | ReductionOperation::DrawDelete => 2,
            ReductionOperation::TailTrim
            | ReductionOperation::WeightedBlockDelete
            | ReductionOperation::DictionaryRepair => 3,
            ReductionOperation::BlockZero
            | ReductionOperation::WordLower
            | ReductionOperation::ByteLower
            | ReductionOperation::RepeatedValue => 4,
        }
    }

    /// Reductions of the structure come first, then those of values.
    pub fn structure_rank(self) -> (rank: u8)
        ensures
            rank == self.structure_rank_spec(),
    {
        match self {
            ReductionOperation::SequenceDelete
            | ReductionOperation::SequenceProject
            | ReductionOperation::SequenceReplace => 0,
            ReductionOperation::ScalarGroup
            | ReductionOperation::ScalarCommonOffset
            | ReductionOperation::ScalarLower => 1,
            ReductionOperation::DrawLength | ReductionOperation::DrawDelete => 2,
            ReductionOperation::TailTrim
            | ReductionOperation::WeightedBlockDelete
            | ReductionOperation::DictionaryRepair => 3,
            ReductionOperation::BlockZero
            | ReductionOperation::WordLower
            | ReductionOperation::ByteLower
            | ReductionOperation::RepeatedValue => 4,
        }
    }

    /// Place of the family where nothing else decides.
    pub open spec fn stable_rank_spec(self) -> u8 {
        match self {
            ReductionOperation::SequenceDelete => 0,
            ReductionOperation::ScalarGroup => 1,
            ReductionOperation::ScalarCommonOffset => 2,
            ReductionOperation::ScalarLower => 3,
            ReductionOperation::DrawLength => 4,
            ReductionOperation::TailTrim => 5,
            ReductionOperation::DrawDelete => 6,
            ReductionOperation::SequenceProject => 7,
            ReductionOperation::SequenceReplace => 8,
            ReductionOperation::WeightedBlockDelete => 9,
            ReductionOperation::BlockZero => 10,
            ReductionOperation::WordLower => 11,
            ReductionOperation::ByteLower => 12,
            ReductionOperation::RepeatedValue => 13,
            ReductionOperation::DictionaryRepair => 14,
        }
    }

    /// Place of the family where nothing else decides.
    pub fn stable_rank(self) -> (rank: u8)
        ensures
            rank == self.stable_rank_spec(),
    {
        match self {
            ReductionOperation::SequenceDelete => 0,
            ReductionOperation::ScalarGroup => 1,
            ReductionOperation::ScalarCommonOffset => 2,
            ReductionOperation::ScalarLower => 3,
            ReductionOperation::DrawLength => 4,
            ReductionOperation::TailTrim => 5,
            ReductionOperation::DrawDelete => 6,
            ReductionOperation::SequenceProject => 7,
            ReductionOperation::SequenceReplace => 8,
            ReductionOperation::WeightedBlockDelete => 9,
            ReductionOperation::BlockZero => 10,
            ReductionOperation::WordLower => 11,
            ReductionOperation::ByteLower => 12,
            ReductionOperation::RepeatedValue => 13,
            ReductionOperation::DictionaryRepair => 14,
        }
    }
}

/// One reduction of a case.
#[derive(Debug, PartialEq, Eq)]
pub struct ReductionOp {
    /// First byte it concerns.
    pub start: usize,
    /// Number of bytes it concerns.
    pub len: usize,
    /// What it aims at: a value, a length or an index.
    pub target: u64,
    /// How much it simplifies.
    pub simplification: usize,
    /// It rewrites the tree where the tree fits.
    pub tree: bool,
    pub mutator: ByteMutation,
}

/// A reduction by its contents.
#[verifier::ext_equal]
pub struct OpModel {
    pub start: usize,
    pub len: usize,
    pub target: u64,
    pub simplification: usize,
    pub tree: bool,
    pub mutation: MutationModel,
}

impl View for ReductionOp {
    type V = OpModel;

    open spec fn view(&self) -> OpModel {
        OpModel {
            start: self.start,
            len: self.len,
            target: self.target,
            simplification: self.simplification,
            tree: self.tree,
            mutation: self.mutator@,
        }
    }
}

/// Set a word, and zero what follows it up to `zero_until`.
pub open spec fn set_word_op(
    start: usize,
    width: usize,
    target: u64,
    zero_until: Option<usize>,
) -> OpModel {
    OpModel {
        start,
        len: width,
        target,
        simplification: width,
        tree: false,
        mutation: MutationModel::SetWord { start, width, word: target, zero_until },
    }
}

/// First byte written.
pub open spec fn writes_start(writes: Seq<ScalarRankWrite>) -> usize
    decreases writes.len(),
{
    if writes.len() == 0 {
        usize::MAX
    } else {
        let rest = writes_start(writes.drop_last());
        if writes.last().start < rest {
            writes.last().start
        } else {
            rest
        }
    }
}

/// End of the last byte written.
pub open spec fn writes_end(writes: Seq<ScalarRankWrite>) -> int
    decreases writes.len(),
{
    if writes.len() == 0 {
        0
    } else {
        let rest = writes_end(writes.drop_last());
        let end = sat(writes.last().start + writes.last().width);
        if end > rest {
            end
        } else {
            rest
        }
    }
}

/// Number of bytes written.
pub open spec fn writes_width(writes: Seq<ScalarRankWrite>) -> int
    decreases writes.len(),
{
    if writes.len() == 0 {
        0
    } else {
        sat(writes_width(writes.drop_last()) + writes.last().width)
    }
}

/// Set the ranks of scalars.
pub open spec fn set_scalar_ranks_op(writes: Seq<ScalarRankWrite>, target: u64) -> OpModel {
    let start = writes_start(writes);
    let end = writes_end(writes);
    OpModel {
        start,
        len: if start <= end {
            (end - start) as usize
        } else {
            0
        },
        target,
        simplification: writes_width(writes) as usize,
        tree: false,
        mutation: MutationModel::SetScalarRanks { writes },
    }
}

/// Delete a range, and lower the first byte by its length if `adjust_first` says so.
pub open spec fn delete_range_op(start: usize, len: usize, adjust_first: bool) -> OpModel {
    OpModel {
        start,
        len,
        target: 0,
        simplification: len,
        tree: false,
        mutation: MutationModel::DeleteRange {
            start,
            len,
            first_byte: if adjust_first {
                FirstByteAdjustment::ByDeletedLen
            } else {
                FirstByteAdjustment::Keep
            },
        },
    }
}

/// Zero a range.
pub open spec fn zero_range_op(start: usize, len: usize) -> OpModel {
    OpModel {
        start,
        len,
        target: 0,
        simplification: len,
        tree: false,
        mutation: MutationModel::ZeroRange { start, len },
    }
}

/// Set a byte.
pub open spec fn set_byte_op(start: usize, value: u8) -> OpModel {
    OpModel {
        start,
        len: 1,
        target: value as u64,
        simplification: 1,
        tree: false,
        mutation: MutationModel::SetByte { index: start, value },
    }
}

/// Zero every byte equal to `value`.
pub open spec fn zero_repeated_op(value: u8) -> OpModel {
    OpModel {
        start: 0,
        len: 0,
        target: value as u64,
        simplification: 1,
        tree: false,
        mutation: MutationModel::ZeroRepeated { value },
    }
}

/// Put a dictionary value in place of as many bytes.
pub open spec fn replace_dictionary_op(
    start: usize,
    len: usize,
    dictionary_index: usize,
) -> OpModel {
    OpModel {
        start,
        len,
        target: dictionary_index as u64,
        simplification: len,
        tree: false,
        mutation: MutationModel::ReplaceDictionary {
            start,
            len,
            dictionary_index,
            mode: ReplaceMode::Exact,
        },
    }
}

/// Delete items of a sequence.
pub open spec fn delete_sequence_items_op(
    length_start: usize,
    length_width: usize,
    target_len: usize,
    start: usize,
    len: usize,
) -> OpModel {
    OpModel {
        start,
        len,
        target: target_len as u64,
        simplification: len,
        tree: true,
        mutation: MutationModel::DeleteSequenceItems {
            length_start,
            length_width,
            target_len,
            start,
            len,
        },
    }
}

/// Number of bytes that the items hold.
pub open spec fn items_len(items: Seq<KeptItem>) -> int
    decreases items.len(),
{
    if items.len() == 0 {
        0
    } else {
        sat(items_len(items.drop_last()) + items.last().len)
    }
}

/// Keep these items of a sequence, in this order.
pub open spec fn project_sequence_items_op(
    length_start: usize,
    length_width: usize,
    target_len: usize,
    replace_start: usize,
    replace_len: usize,
    items: Seq<KeptItem>,
) -> OpModel {
    OpModel {
        start: replace_start,
        len: replace_len,
        target: target_len as u64,
        simplification: if items_len(items) <= replace_len {
            (replace_len - items_len(items)) as usize
        } else {
            0
        },
        tree: true,
        mutation: MutationModel::ProjectSequenceItems {
            length_start,
            length_width,
            target_len,
            replace_start,
            replace_len,
            items,
        },
    }
}

/// The case after the reduction and its byte path, or `None` where the reduction does not fit.
///
/// A rewrite of the tree starts from the case, any other from the byte path alone.
pub open spec fn materialized(
    op: OpModel,
    seed: u64,
    base: TraceModel,
    prefix: Seq<u8>,
    dictionary: Seq<Seq<u8>>,
) -> Option<(TraceModel, Seq<u8>)> {
    match rewritten_trace(op.mutation, base) {
        Some(case) if op.tree => Some((case, case.bytes())),
        _ => match mutated(op.mutation, prefix, dictionary) {
            Some(bytes) => Some((flat_case(seed, bytes, base.zero_tail), bytes)),
            None => None,
        },
    }
}

/// The case whose path is `bytes`, without structure.
pub open spec fn flat_case(seed: u64, bytes: Seq<u8>, zero_tail: bool) -> TraceModel {
    TraceModel {
        seed,
        root: NodeModel { events: Seq::empty() },
        flat: Some(bytes),
        zero_tail,
    }
}

impl ReductionOp {
    pub fn set_word(
        start: usize,
        width: usize,
        target: u64,
        zero_until: Option<usize>,
    ) -> (op: ReductionOp)
        ensures
            op@ == set_word_op(start, width, target, zero_until),
    {
        ReductionOp {
            start,
            len: width,
            target,
            simplification: width,
            tree: false,
            mutator: ByteMutation::SetWord { start, width, word: target, zero_until },
        }
    }

    pub fn set_scalar_ranks(writes: Vec<ScalarRankWrite>, target: u64) -> (op: ReductionOp)
        ensures
            op@ == set_scalar_ranks_op(writes@, target),
    {
        let mut start: usize = usize::MAX;
        let mut end: usize = 0;
        let mut simplification: usize = 0;
        let mut i: usize = 0;
        assert(writes@.take(0) =~= Seq::<ScalarRankWrite>::empty());
        while i < writes.len()
            invariant
                i <= writes@.len(),
                start == writes_start(writes@.take(i as int)),
                end == writes_end(writes@.take(i as int)),
                simplification == writes_width(writes@.take(i as int)),
            decreases writes@.len() - i,
        {
            proof {
                assert(writes@.take(i + 1).drop_last() =~= writes@.take(i as int));
                assert(writes@.take(i + 1).last() == writes@[i as int]);
            }
            let write = writes[i];
            if write.start < start {
                start = write.start;
            }
            let write_end: usize = write.start.saturating_add(write.width);
            if write_end > end {
                end = write_end;
            }
            simplification = simplification.saturating_add(write.width);
            i += 1;
        }
        assert(writes@.take(writes@.len() as int) =~= writes@);
        ReductionOp {
            start,
            len: end.saturating_sub(start),
            target,
            simplification,
            tree: false,
            mutator: ByteMutation::SetScalarRanks { writes },
        }
    }

    pub fn delete_range(start: usize, len: usize, adjust_first: bool) -> (op: ReductionOp)
        ensures
            op@ == delete_range_op(start, len, adjust_first),
    {
        ReductionOp {
            start,
            len,
            target: 0,
            simplification: len,
            tree: false,
            mutator: ByteMutation::DeleteRange {
                start,
                len,
                first_byte: if adjust_first {
                    FirstByteAdjustment::ByDeletedLen
                } else {
                    FirstByteAdjustment::Keep
                },
            },
        }
    }

    pub fn zero_range(start: usize, len: usize) -> (op: ReductionOp)
        ensures
            op@ == zero_range_op(start, len),
    {
        ReductionOp {
            start,
            len,
            target: 0,
            simplification: len,
            tree: false,
            mutator: ByteMutation::ZeroRange { start, len },
        }
    }

    pub fn set_byte(start: usize, value: u8) -> (op: ReductionOp)
        ensures
            op@ == set_byte_op(start, value),
    {
        ReductionOp {
            start,
            len: 1,
            target: value as u64,
            simplification: 1,
            tree: false,
            mutator: ByteMutation::SetByte { index: start, value },
        }
    }

    pub fn zero_repeated(value: u8) -> (op: ReductionOp)
        ensures
            op@ == zero_repeated_op(value),
    {
        ReductionOp {
            start: 0,
            len: 0,
            target: value as u64,
            simplification: 1,
            tree: false,
            mutator: ByteMutation::ZeroRepeated { value },
        }
    }

    pub fn replace_dictionary(start: usize, len: usize, dictionary_index: usize) -> (op:
        ReductionOp)
        ensures
            op@ == replace_dictionary_op(start, len, dictionary_index),
    {
        ReductionOp {
            start,
            len,
            target: dictionary_index as u64,
            simplification: len,
            tree: false,
            mutator: ByteMutation::ReplaceDictionary {
                start,
                len,
                dictionary_index,
                mode: ReplaceMode::Exact,
            },
        }
    }

    pub fn delete_sequence_items(
        length_start: usize,
        length_width: usize,
        target_len: usize,
        start: usize,
        len: usize,
    ) -> (op: ReductionOp)
        ensures
            op@ == delete_sequence_items_op(length_start, length_width, target_len, start, len),
    {
        ReductionOp {
            start,
            len,
            target: target_len as u64,
            simplification: len,
            tree: true,
            mutator: ByteMutation::DeleteSequenceItems {
                length_start,
                length_width,
                target_len,
                start,
                len,
            },
        }
    }

    pub fn project_sequence_items(
        length_start: usize,
        length_width: usize,
        target_len: usize,
        replace_start: usize,
        replace_len: usize,
        items: Vec<KeptItem>,
    ) -> (op: ReductionOp)
        ensures
            op@ == project_sequence_items_op(
                length_start,
                length_width,
                target_len,
                replace_start,
                replace_len,
                items@,
            ),
    {
        let mut replacement_len: usize = 0;
        let mut i: usize = 0;
        assert(items@.take(0) =~= Seq::<KeptItem>::empty());
        while i < items.len()
            invariant
                i <= items@.len(),
                replacement_len == items_len(items@.take(i as int)),
            decreases items@.len() - i,
        {
            proof {
                assert(items@.take(i + 1).drop_last() =~= items@.take(i as int));
                assert(items@.take(i + 1).last() == items@[i as int]);
            }
            replacement_len = replacement_len.saturating_add(items[i].len);
            i += 1;
        }
        assert(items@.take(items@.len() as int) =~= items@);
        ReductionOp {
            start: replace_start,
            len: replace_len,
            target: target_len as u64,
            simplification: replace_len.saturating_sub(replacement_len),
            tree: true,
            mutator: ByteMutation::ProjectSequenceItems {
                length_start,
                length_width,
                target_len,
                replace_start,
                replace_len,
                items,
            },
        }
    }

    /// The case after the reduction and its byte path, or `None` where the reduction does not
    /// fit.
    pub fn materialize(
        &self,
        seed: u64,
        base_case: &Trace,
        base_prefix: &Vec<u8>,
        dictionary: &Vec<Vec<u8>>,
    ) -> (reduced: Option<(Trace, Vec<u8>)>)
        ensures
            match reduced {
                Some((case, prefix)) => materialized(
                    self@,
                    seed,
                    base_case@,
                    base_prefix@,
                    byte_lists(dictionary@),
                ) == Some((case@, prefix@)),
                None => materialized(
                    self@,
                    seed,
                    base_case@,
                    base_prefix@,
                    byte_lists(dictionary@),
                ) is None,
            },
    {
        if self.tree {
            let mut case = base_case.clone();
            if self.mutator.apply_tree(&mut case) {
                let prefix = case.flatten_prefix();
                return Some((case, prefix));
            }
        }
        let mut prefix = copy_bytes(base_prefix);
        if !self.mutator.apply_bytes(&mut prefix, dictionary) {
            return None;
        }
        let bytes = copy_bytes(&prefix);
        Some((Trace::from_raw_parts(seed, bytes, base_case.zero_tail), prefix))
    }

    /// Kind of the rewrite.
    pub fn kind(&self) -> (kind: MutationKind)
        ensures
            kind == self@.mutation.kind(),
    {
        self.mutator.kind()
    }
}

/// A reduction that is to be tried, and how far it is put off.
#[derive(Debug, PartialEq, Eq)]
pub struct ReductionSpec {
    pub op: ReductionOp,
    pub bias: u64,
}

/// A reduction that is to be tried, by its contents.
#[verifier::ext_equal]
pub struct SpecModel {
    pub op: OpModel,
    pub bias: u64,
}

impl View for ReductionSpec {
    type V = SpecModel;

    open spec fn view(&self) -> SpecModel {
        SpecModel { op: self.op@, bias: self.bias }
    }
}

/// The contents of a list of reductions.
pub open spec fn spec_models(specs: Seq<ReductionSpec>) -> Seq<SpecModel> {
    specs.map_values(|spec: ReductionSpec| spec@)
}

pub(crate) proof fn lemma_spec_models_push(specs: Seq<ReductionSpec>, spec: ReductionSpec)
    ensures
        spec_models(specs.push(spec)) == spec_models(specs).push(spec@),
{
    assert(spec_models(specs.push(spec)) =~= spec_models(specs).push(spec@));
}

/// Append a reduction.
pub fn push_spec(specs: &mut Vec<ReductionSpec>, op: ReductionOp, bias: u64)
    ensures
        spec_models(final(specs)@) == spec_models(old(specs)@).push(SpecModel { op: op@, bias }),
{
    let spec = ReductionSpec { op, bias };
    proof {
        lemma_spec_models_push(specs@, spec);
    }
    specs.push(spec);
}

} // verus!
