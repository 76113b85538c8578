//! The order in which the reductions of one family are tried.

use crate::mutation::ByteMutation;
use crate::order::{arranged, lemma_sorted_by_is_arranged, sorted_by, stable_order};
use crate::reduction::{spec_models, ReductionOp, ReductionSpec, SpecModel};
use crate::trace::copy_bytes;
use vstd::prelude::*;

verus! {

/// The first `n` parts, one after the other.
pub open spec fn flat<T>(n: nat, part: spec_fn(int) -> Seq<T>) -> Seq<T>
    decreases n,
{
    if n == 0 {
        Seq::empty()
    } else {
        flat((n - 1) as nat, part) + part(n - 1)
    }
}

/// The smaller of two lengths.
pub open spec fn at_most(len: nat, limit: usize) -> nat {
    if len <= limit {
        len
    } else {
        limit as nat
    }
}

/// The smaller of two lengths.
pub fn limited(len: usize, limit: usize) -> (n: usize)
    ensures
        n == at_most(len as nat, limit),
{
    if len <= limit {
        len
    } else {
        limit
    }
}

/// Sum of the pressures.
pub open spec fn pressure_sum(pressure: Seq<u16>) -> int
    decreases pressure.len(),
{
    if pressure.len() == 0 {
        0
    } else {
        pressure_sum(pressure.drop_last()) + pressure.last()
    }
}

/// End of `start..start + len` within `total`.
pub open spec fn clipped_end(start: int, len: int, total: int) -> int {
    if start + len <= total {
        start + len
    } else {
        total
    }
}

/// Mean pressure on a range, rounded down; zero where it holds no byte.
pub open spec fn range_weight_spec(pressure: Seq<u16>, start: int, len: int) -> int {
    if len == 0 || start >= pressure.len() {
        0
    } else {
        let end = clipped_end(start, len, pressure.len() as int);
        pressure_sum(pressure.subrange(start, end)) / (end - start)
    }
}

pub(crate) proof fn lemma_pressure_sum_bound(pressure: Seq<u16>)
    ensures
        0 <= pressure_sum(pressure) <= 0xffff * pressure.len(),
    decreases pressure.len(),
{
    if pressure.len() > 0 {
        lemma_pressure_sum_bound(pressure.drop_last());
    }
}

pub(crate) proof fn lemma_range_weight_bound(pressure: Seq<u16>, start: int, len: int)
    requires
        0 <= start,
        0 <= len,
    ensures
        0 <= range_weight_spec(pressure, start, len) <= 0xffff,
{
    if len != 0 && start < pressure.len() {
        let end = clipped_end(start, len, pressure.len() as int);
        let sum = pressure_sum(pressure.subrange(start, end));
        let count = end - start;
        lemma_pressure_sum_bound(pressure.subrange(start, end));
        assert(0 <= sum / count <= 0xffff) by (nonlinear_arith)
            requires
                0 <= sum <= 0xffff * count,
                count > 0,
        ;
    }
}

/// Mean pressure on a range, rounded down; zero where it holds no byte.
pub fn range_weight(pressure: &Vec<u16>, start: usize, len: usize) -> (weight: u64)
    ensures
        weight == range_weight_spec(pressure@, start as int, len as int),
        weight <= 0xffff,
{
    proof {
        lemma_range_weight_bound(pressure@, start as int, len as int);
    }
    let total: usize = pressure.len();
    if len == 0 || start >= total {
        return 0;
    }
    let end: usize = if len <= total - start {
        start + len
    } else {
        total
    };
    let mut sum: u128 = 0;
    let mut i: usize = start;
    assert(pressure@.subrange(start as int, start as int) =~= Seq::<u16>::empty());
    while i < end
        invariant
            start <= i <= end <= total,
            total == pressure@.len(),
            sum == pressure_sum(pressure@.subrange(start as int, i as int)),
            sum <= 0xffff * (i - start),
        decreases end - i,
    {
        proof {
            assert(pressure@.subrange(start as int, i + 1).drop_last() =~= pressure@.subrange(
                start as int,
                i as int,
            ));
        }
        sum = sum + pressure[i] as u128;
        i += 1;
    }
    (sum / (end - start) as u128) as u64
}

/// `a + b`, or the largest key where that is larger.
pub open spec fn key_sum(a: int, b: int) -> u64 {
    if a + b <= u64::MAX {
        (a + b) as u64
    } else {
        u64::MAX
    }
}

/// The pressure on the bytes of a reduction, at least one.
pub open spec fn spec_pressure_spec(pressure: Seq<u16>, spec: SpecModel) -> u64 {
    let weight = range_weight_spec(pressure, spec.op.start as int, spec.op.len as int);
    if weight < 1 {
        1
    } else {
        weight as u64
    }
}

/// The pressure on the bytes of a reduction, at least one.
pub fn spec_pressure(pressure: &Vec<u16>, spec: &ReductionSpec) -> (weight: u64)
    ensures
        weight == spec_pressure_spec(pressure@, spec@),
{
    let weight = range_weight(pressure, spec.op.start, spec.op.len);
    if weight < 1 {
        1
    } else {
        weight
    }
}

/// How far a reduction is put off.
pub open spec fn range_score_spec(pressure: Seq<u16>, spec: SpecModel) -> u64 {
    key_sum(spec.bias as int, spec_pressure_spec(pressure, spec) as int)
}

/// How far a reduction is put off.
pub fn range_score(pressure: &Vec<u16>, spec: &ReductionSpec) -> (score: u64)
    ensures
        score == range_score_spec(pressure@, spec@),
{
    spec.bias.saturating_add(spec_pressure(pressure, spec))
}

/// A larger value comes first.
pub open spec fn descending(value: int) -> u64 {
    (u64::MAX - value) as u64
}

/// What the reductions of a family are ordered by, first things first.
#[derive(Debug, Clone, Copy, PartialEq, Eq, Structural)]
pub enum Ranking {
    /// Pressure, the larger simplification, start.
    PressureSizeStart,
    /// Pressure, the larger simplification, the later start.
    PressureSizeLateStart,
    /// Pressure, start, target.
    PressureStartTarget,
    /// Pressure, start, length, target.
    PressureStartLenTarget,
    /// Pressure, length, start, target.
    PressureLenStartTarget,
    /// Target, score, the larger simplification, start.
    TargetScoreSizeStart,
    /// Score, target, start, length.
    ScoreTargetStartLen,
    /// Score, target, start, the larger simplification, length.
    ScoreTargetStartSizeLen,
    /// As they come.
    Unranked,
}

/// Key of a reduction in its family.
pub open spec fn rank_key(ranking: Ranking, pressure: Seq<u16>, spec: SpecModel) -> Seq<u64> {
    let weight = spec_pressure_spec(pressure, spec);
    let score = range_score_spec(pressure, spec);
    let size = descending(spec.op.simplification as int);
    let start = spec.op.start as u64;
    let len = spec.op.len as u64;
    let target = spec.op.target;
    match ranking {
        Ranking::PressureSizeStart => seq![weight, size, start],
        Ranking::PressureSizeLateStart => seq![weight, size, descending(spec.op.start as int)],
        Ranking::PressureStartTarget => seq![weight, start, target],
        Ranking::PressureStartLenTarget => seq![weight, start, len, target],
        Ranking::PressureLenStartTarget => seq![weight, len, start, target],
        Ranking::TargetScoreSizeStart => seq![target, score, size, start],
        Ranking::ScoreTargetStartLen => seq![score, target, start, len],
        Ranking::ScoreTargetStartSizeLen => seq![score, target, start, size, len],
        Ranking::Unranked => seq![],
    }
}

/// Key of each reduction in its family.
pub open spec fn rank_keys(ranking: Ranking, pressure: Seq<u16>) -> spec_fn(SpecModel) -> Seq<u64> {
    |spec: SpecModel| rank_key(ranking, pressure, spec)
}

/// Key of a reduction in its family.
fn rank(ranking: Ranking, pressure: &Vec<u16>, spec: &ReductionSpec) -> (key: Vec<u64>)
    ensures
        key@ == rank_key(ranking, pressure@, spec@),
{
    let weight: u64 = spec_pressure(pressure, spec);
    let score: u64 = range_score(pressure, spec);
    let size: u64 = u64::MAX - spec.op.simplification as u64;
    let start: u64 = spec.op.start as u64;
    let late: u64 = u64::MAX - start;
    let len: u64 = spec.op.len as u64;
    let target: u64 = spec.op.target;
    let key: Vec<u64> = match ranking {
        Ranking::PressureSizeStart => vec![weight, size, start],
        Ranking::PressureSizeLateStart => vec![weight, size, late],
        Ranking::PressureStartTarget => vec![weight, start, target],
        Ranking::PressureStartLenTarget => vec![weight, start, len, target],
        Ranking::PressureLenStartTarget => vec![weight, len, start, target],
        Ranking::TargetScoreSizeStart => vec![target, score, size, start],
        Ranking::ScoreTargetStartLen => vec![score, target, start, len],
        Ranking::ScoreTargetStartSizeLen => vec![score, target, start, size, len],
        Ranking::Unranked => Vec::new(),
    };
    assert(key@ =~= rank_key(ranking, pressure@, spec@));
    key
}

impl Clone for ByteMutation {
    fn clone(&self) -> (copy: ByteMutation)
        ensures
            copy@ == self@,
    {
        match self {
            ByteMutation::SetByte { index, value } => ByteMutation::SetByte {
                index: *index,
                value: *value,
            },
            ByteMutation::XorBit { index, bit } => ByteMutation::XorBit {
                index: *index,
                bit: *bit,
            },
            ByteMutation::AddByte { index, amount } => ByteMutation::AddByte {
                index: *index,
                amount: *amount,
            },
            ByteMutation::SubByte { index, amount } => ByteMutation::SubByte {
                index: *index,
                amount: *amount,
            },
            ByteMutation::MinByte { index, value } => ByteMutation::MinByte {
                index: *index,
                value: *value,
            },
            ByteMutation::InsertBytes { index, bytes } => ByteMutation::InsertBytes {
                index: *index,
                bytes: copy_bytes(bytes),
            },
            ByteMutation::InsertDictionary { index, dictionary_index } => {
                ByteMutation::InsertDictionary {
                    index: *index,
                    dictionary_index: *dictionary_index,
                }
            },
            ByteMutation::ReplaceDictionary { start, len, dictionary_index, mode } => {
                ByteMutation::ReplaceDictionary {
                    start: *start,
                    len: *len,
                    dictionary_index: *dictionary_index,
                    mode: *mode,
                }
            },
            ByteMutation::DeleteRange { start, len, first_byte } => ByteMutation::DeleteRange {
                start: *start,
                len: *len,
                first_byte: *first_byte,
            },
            ByteMutation::DrainPrefix { keep_from } => ByteMutation::DrainPrefix {
                keep_from: *keep_from,
            },
            ByteMutation::Truncate { len, leading_sub } => ByteMutation::Truncate {
                len: *len,
                leading_sub: *leading_sub,
            },
            ByteMutation::FillRange { start, bytes } => ByteMutation::FillRange {
                start: *start,
                bytes: copy_bytes(bytes),
            },
            ByteMutation::SetWord { start, width, word, zero_until } => ByteMutation::SetWord {
                start: *start,
                width: *width,
                word: *word,
                zero_until: *zero_until,
            },
            ByteMutation::ZeroRange { start, len } => ByteMutation::ZeroRange {
                start: *start,
                len: *len,
            },
            ByteMutation::ZeroRepeated { value } => ByteMutation::ZeroRepeated { value: *value },
            ByteMutation::SetScalarRanks { writes } => {
                let mut copy: Vec<crate::mutation::ScalarRankWrite> = Vec::with_capacity(
                    writes.len(),
                );
                let mut i: usize = 0;
                while i < writes.len()
                    invariant
                        i <= writes@.len(),
                        copy@ == writes@.take(i as int),
                    decreases writes@.len() - i,
                {
                    copy.push(writes[i]);
                    i += 1;
                }
                assert(copy@ =~= writes@);
                ByteMutation::SetScalarRanks { writes: copy }
            },
            ByteMutation::DeleteSequenceItems {
                length_start,
                length_width,
                target_len,
                start,
                len,
            } => ByteMutation::DeleteSequenceItems {
                length_start: *length_start,
                length_width: *length_width,
                target_len: *target_len,
                start: *start,
                len: *len,
            },
            ByteMutation::ProjectSequenceItems {
                length_start,
                length_width,
                target_len,
                replace_start,
                replace_len,
                items,
            } => {
                let mut copy: Vec<crate::mutation::KeptItem> = Vec::with_capacity(items.len());
                let mut i: usize = 0;
                while i < items.len()
                    invariant
                        i <= items@.len(),
                        copy@ == items@.take(i as int),
                    decreases items@.len() - i,
                {
                    copy.push(items[i]);
                    i += 1;
                }
                assert(copy@ =~= items@);
                ByteMutation::ProjectSequenceItems {
                    length_start: *length_start,
                    length_width: *length_width,
                    target_len: *target_len,
                    replace_start: *replace_start,
                    replace_len: *replace_len,
                    items: copy,
                }
            },
        }
    }
}

impl Clone for ReductionSpec {
    fn clone(&self) -> (copy: ReductionSpec)
        ensures
            copy@ == self@,
    {
        ReductionSpec {
            op: ReductionOp {
                start: self.op.start,
                len: self.op.len,
                target: self.op.target,
                simplification: self.op.simplification,
                tree: self.op.tree,
                mutator: self.op.mutator.clone(),
            },
            bias: self.bias,
        }
    }
}

/// The reductions in this order.
pub fn arrange(specs: &Vec<ReductionSpec>, order: &Vec<usize>) -> (out: Vec<ReductionSpec>)
    requires
        forall|k: int| 0 <= k < order@.len() ==> #[trigger] order@[k] < specs@.len(),
    ensures
        spec_models(out@) == arranged(spec_models(specs@), order@),
{
    let mut out: Vec<ReductionSpec> = Vec::with_capacity(order.len());
    let mut k: usize = 0;
    while k < order.len()
        invariant
            k <= order@.len(),
            forall|k: int| 0 <= k < order@.len() ==> #[trigger] order@[k] < specs@.len(),
            out@.len() == k,
            forall|j: int|
                0 <= j < k ==> (#[trigger] out@[j])@ == specs@[order@[j] as int]@,
        decreases order@.len() - k,
    {
        out.push(specs[order[k]].clone());
        k += 1;
    }
    assert(spec_models(out@) =~= arranged(spec_models(specs@), order@));
    out
}

/// The reductions in the order of their family.
pub fn sort_specs(specs: Vec<ReductionSpec>, ranking: Ranking, pressure: &Vec<u16>) -> (sorted: Vec<
    ReductionSpec,
>)
    ensures
        spec_models(sorted@) == sorted_by(spec_models(specs@), rank_keys(ranking, pressure@)),
{
    let mut keys: Vec<Vec<u64>> = Vec::with_capacity(specs.len());
    let mut i: usize = 0;
    while i < specs.len()
        invariant
            i <= specs@.len(),
            keys@.len() == i,
            forall|k: int|
                0 <= k < i ==> (#[trigger] keys@[k])@ == rank_key(ranking, pressure@, specs@[k]@),
        decreases specs@.len() - i,
    {
        keys.push(rank(ranking, pressure, &specs[i]));
        i += 1;
    }
    let order = stable_order(&keys);
    proof {
        lemma_sorted_by_is_arranged(
            spec_models(specs@),
            keys@,
            order@,
            rank_keys(ranking, pressure@),
        );
    }
    arrange(&specs, &order)
}

} // verus!
