//! Reductions of numbers: one of them, several equal ones, or several by the same amount.

use crate::mutation::ScalarRankWrite;
use crate::order::{arranged, lemma_sorted_by_is_arranged, sorted_by, stable_order};
use crate::reducer::bytes::one;
use crate::reducer::ranking::{at_most, flat, limited, range_weight, range_weight_spec};
use crate::reduction::{
    push_spec, set_scalar_ranks_op, spec_models, OpModel, ReductionOp, ReductionSpec, SpecModel,
};
use crate::targets::{
    le_value, less_by, rank_ints, rank_limit, read_le, scalar_common_offset_targets,
    scalar_common_offset_targets_spec, scalar_group_targets, scalar_group_targets_spec,
    scalar_target_allowed, scalar_targets, scalar_targets_spec, target_key, target_key_spec,
};
use crate::trace::{span_len, ScalarSpan};
use vstd::prelude::*;

verus! {

/// The scalar holds bytes, at most 16, and all of them are in the path.
pub open spec fn valid_scalar_spec(total: int, scalar: ScalarSpan) -> bool {
    scalar.start < scalar.end <= total && scalar.end - scalar.start <= 16
}

/// The scalar holds bytes, at most 16, and all of them are in the path.
pub fn valid_scalar(total: usize, scalar: &ScalarSpan) -> (valid: bool)
    ensures
        valid == valid_scalar_spec(total as int, *scalar),
{
    !scalar.is_empty() && scalar.end <= total && scalar.len() <= 16
}

/// The rank that the path gives the scalar.
pub open spec fn rank_of(prefix: Seq<u8>, scalar: ScalarSpan) -> int {
    let raw = le_value(prefix.subrange(scalar.start as int, scalar.end as int));
    if scalar.span == 0 {
        raw
    } else {
        raw % (scalar.span as int)
    }
}

/// The rank that the path gives the scalar.
pub fn read_scalar_rank(prefix: &Vec<u8>, scalar: &ScalarSpan) -> (rank: u128)
    requires
        valid_scalar_spec(prefix@.len() as int, *scalar),
    ensures
        rank == rank_of(prefix@, *scalar),
{
    let raw: u128 = read_le(prefix, scalar.start, scalar.end);
    if scalar.span == 0 {
        raw
    } else {
        raw % scalar.span
    }
}

/// Write the rank of a scalar.
pub open spec fn rank_write(scalar: ScalarSpan, rank: int) -> ScalarRankWrite {
    ScalarRankWrite {
        start: scalar.start,
        width: span_len(scalar.start, scalar.end),
        value: rank as u128,
    }
}

/// One scalar, with each rank that is tried.
pub open spec fn scalar_lower_targets(
    prefix: Seq<u8>,
    scalar: ScalarSpan,
) -> spec_fn(int) -> Seq<SpecModel> {
    |t: int|
        {
            let target = scalar_targets_spec(scalar, rank_of(prefix, scalar))[t];
            one(set_scalar_ranks_op(seq![rank_write(scalar, target)], target_key_spec(target)))
        }
}

/// Each scalar.
pub open spec fn scalar_lower_part(
    prefix: Seq<u8>,
    scalars: Seq<ScalarSpan>,
) -> spec_fn(int) -> Seq<SpecModel> {
    |i: int|
        if valid_scalar_spec(prefix.len() as int, scalars[i]) {
            flat(
                scalar_targets_spec(scalars[i], rank_of(prefix, scalars[i])).len(),
                scalar_lower_targets(prefix, scalars[i]),
            )
        } else {
            Seq::empty()
        }
}

/// Other ranks for the first scalars, one at a time.
pub open spec fn scalar_lower_list(
    prefix: Seq<u8>,
    scalars: Seq<ScalarSpan>,
    limit: usize,
) -> Seq<SpecModel> {
    flat(at_most(scalars.len(), limit), scalar_lower_part(prefix, scalars))
}

/// Append other ranks for one scalar.
fn push_scalar_targets(specs: &mut Vec<ReductionSpec>, prefix: &Vec<u8>, scalar: &ScalarSpan)
    requires
        valid_scalar_spec(prefix@.len() as int, *scalar),
    ensures
        spec_models(final(specs)@) == spec_models(old(specs)@) + flat(
            scalar_targets_spec(*scalar, rank_of(prefix@, *scalar)).len(),
            scalar_lower_targets(prefix@, *scalar),
        ),
{
    let ghost before = spec_models(specs@);
    let ghost part = scalar_lower_targets(prefix@, *scalar);
    let current: u128 = read_scalar_rank(prefix, scalar);
    let targets = scalar_targets(scalar, current);
    let mut t: usize = 0;
    assert(before + flat(0, part) =~= before);
    while t < targets.len()
        invariant
            t <= targets@.len(),
            current == rank_of(prefix@, *scalar),
            part == scalar_lower_targets(prefix@, *scalar),
            rank_ints(targets@) == scalar_targets_spec(*scalar, current as int),
            spec_models(specs@) == before + flat(t as nat, part),
        decreases targets@.len() - t,
    {
        let ghost listed = spec_models(specs@);
        assert(rank_ints(targets@)[t as int] == targets@[t as int] as int);
        let target: u128 = targets[t];
        let mut writes: Vec<ScalarRankWrite> = Vec::with_capacity(1);
        writes.push(ScalarRankWrite { start: scalar.start, width: scalar.len(), value: target });
        assert(writes@ =~= seq![rank_write(*scalar, target as int)]);
        push_spec(specs, ReductionOp::set_scalar_ranks(writes, target_key(target)), 0);
        t += 1;
        assert(listed + part(t - 1) =~= before + flat(t as nat, part));
    }
    assert(rank_ints(targets@).len() == targets@.len());
}

/// Other ranks for the first scalars, one at a time.
pub fn scalar_lower_specs(prefix: &Vec<u8>, scalars: &Vec<ScalarSpan>, limit: usize) -> (specs: Vec<
    ReductionSpec,
>)
    ensures
        spec_models(specs@) == scalar_lower_list(prefix@, scalars@, limit),
{
    let mut specs: Vec<ReductionSpec> = Vec::new();
    assert(spec_models(specs@) =~= Seq::<SpecModel>::empty());
    let ghost part = scalar_lower_part(prefix@, scalars@);
    let n: usize = limited(scalars.len(), limit);
    let mut i: usize = 0;
    while i < n
        invariant
            i <= n <= scalars@.len(),
            part == scalar_lower_part(prefix@, scalars@),
            spec_models(specs@) == flat(i as nat, part),
        decreases n - i,
    {
        let ghost listed = spec_models(specs@);
        if valid_scalar(prefix.len(), &scalars[i]) {
            push_scalar_targets(&mut specs, prefix, &scalars[i]);
        } else {
            assert(listed + part(i as int) =~= listed);
        }
        i += 1;
    }
    specs
}

/// A scalar in the path, or nothing.
pub open spec fn usable_part(
    total: int,
    scalars: Seq<ScalarSpan>,
) -> spec_fn(int) -> Seq<ScalarSpan> {
    |i: int|
        if valid_scalar_spec(total, scalars[i]) {
            seq![scalars[i]]
        } else {
            Seq::empty()
        }
}

/// The first scalars, without those that are not in the path.
pub open spec fn usable(total: int, scalars: Seq<ScalarSpan>, limit: usize) -> Seq<ScalarSpan> {
    flat(at_most(scalars.len(), limit), usable_part(total, scalars))
}

/// The first scalars, without those that are not in the path.
fn usable_scalars(total: usize, scalars: &Vec<ScalarSpan>, limit: usize) -> (list: Vec<ScalarSpan>)
    ensures
        list@ == usable(total as int, scalars@, limit),
        forall|k: int|
            0 <= k < list@.len() ==> valid_scalar_spec(total as int, #[trigger] list@[k]),
{
    let mut list: Vec<ScalarSpan> = Vec::new();
    let ghost part = usable_part(total as int, scalars@);
    let n: usize = limited(scalars.len(), limit);
    let mut i: usize = 0;
    assert(list@ =~= Seq::<ScalarSpan>::empty());
    while i < n
        invariant
            i <= n <= scalars@.len(),
            part == usable_part(total as int, scalars@),
            list@ == flat(i as nat, part),
            forall|k: int|
                0 <= k < list@.len() ==> valid_scalar_spec(total as int, #[trigger] list@[k]),
        decreases n - i,
    {
        let ghost listed = list@;
        if valid_scalar(total, &scalars[i]) {
            list.push(scalars[i]);
        }
        i += 1;
        assert(list@ =~= listed + part(i - 1));
    }
    list
}

/// The scalars have one form and one rank.
pub open spec fn alike(prefix: Seq<u8>, a: ScalarSpan, b: ScalarSpan) -> bool {
    &&& span_len(a.start, a.end) == span_len(b.start, b.end)
    &&& a.span == b.span
    &&& rank_of(prefix, a) == rank_of(prefix, b)
}

fn are_alike(prefix: &Vec<u8>, a: &ScalarSpan, b: &ScalarSpan) -> (yes: bool)
    requires
        valid_scalar_spec(prefix@.len() as int, *a),
        valid_scalar_spec(prefix@.len() as int, *b),
    ensures
        yes == alike(prefix@, *a, *b),
{
    a.len() == b.len() && a.span == b.span && read_scalar_rank(prefix, a) == read_scalar_rank(
        prefix,
        b,
    )
}

/// No scalar before `i` is like it.
pub open spec fn first_of_kind(prefix: Seq<u8>, scalars: Seq<ScalarSpan>, i: int) -> bool {
    forall|j: int| 0 <= j < i ==> !alike(prefix, #[trigger] scalars[j], scalars[i])
}

/// A scalar from `i` on that is like it, or nothing.
pub open spec fn member_part(
    prefix: Seq<u8>,
    scalars: Seq<ScalarSpan>,
    i: int,
) -> spec_fn(int) -> Seq<ScalarSpan> {
    |k: int|
        if alike(prefix, scalars[i], scalars[i + k]) {
            seq![scalars[i + k]]
        } else {
            Seq::empty()
        }
}

/// Scalar `i` and those behind it that are like it.
pub open spec fn members(prefix: Seq<u8>, scalars: Seq<ScalarSpan>, i: int) -> Seq<ScalarSpan> {
    flat((scalars.len() - i) as nat, member_part(prefix, scalars, i))
}

/// One rank for all of them.
pub open spec fn rank_writes(scalars: Seq<ScalarSpan>, rank: int) -> Seq<ScalarRankWrite> {
    Seq::new(scalars.len(), |k: int| rank_write(scalars[k], rank))
}

/// A reduction that is put off by the pressure on its bytes.
pub open spec fn pressed(op: OpModel, pressure: Seq<u16>) -> Seq<SpecModel> {
    seq![
        SpecModel {
            op,
            bias: range_weight_spec(pressure, op.start as int, op.len as int) as u64,
        },
    ]
}

/// A group of like scalars, with each rank that is tried.
pub open spec fn group_targets(
    prefix: Seq<u8>,
    scalars: Seq<ScalarSpan>,
    i: int,
    pressure: Seq<u16>,
) -> spec_fn(int) -> Seq<SpecModel> {
    |t: int|
        pressed(
            set_scalar_ranks_op(
                rank_writes(
                    members(prefix, scalars, i),
                    scalar_group_targets_spec(scalars[i], rank_of(prefix, scalars[i]))[t],
                ),
                t as u64,
            ),
            pressure,
        )
}

/// Each group of at least two like scalars.
pub open spec fn group_part(
    prefix: Seq<u8>,
    scalars: Seq<ScalarSpan>,
    pressure: Seq<u16>,
) -> spec_fn(int) -> Seq<SpecModel> {
    |i: int|
        if first_of_kind(prefix, scalars, i) && members(prefix, scalars, i).len() >= 2 {
            flat(
                scalar_group_targets_spec(scalars[i], rank_of(prefix, scalars[i])).len(),
                group_targets(prefix, scalars, i, pressure),
            )
        } else {
            Seq::empty()
        }
}

/// Other ranks for groups of like scalars.
pub open spec fn scalar_group_list(
    prefix: Seq<u8>,
    scalars: Seq<ScalarSpan>,
    pressure: Seq<u16>,
    limit: usize,
) -> Seq<SpecModel> {
    let list = usable(prefix.len() as int, scalars, limit);
    flat(list.len(), group_part(prefix, list, pressure))
}

fn is_first_of_kind(prefix: &Vec<u8>, scalars: &Vec<ScalarSpan>, i: usize) -> (first: bool)
    requires
        i < scalars@.len(),
        forall|k: int|
            0 <= k < scalars@.len() ==> valid_scalar_spec(
                prefix@.len() as int,
                #[trigger] scalars@[k],
            ),
    ensures
        first == first_of_kind(prefix@, scalars@, i as int),
{
    let mut j: usize = 0;
    while j < i
        invariant
            j <= i < scalars@.len(),
            forall|k: int|
                0 <= k < scalars@.len() ==> valid_scalar_spec(
                    prefix@.len() as int,
                    #[trigger] scalars@[k],
                ),
            forall|k: int|
                0 <= k < j ==> !alike(prefix@, #[trigger] scalars@[k], scalars@[i as int]),
        decreases i - j,
    {
        if are_alike(prefix, &scalars[j], &scalars[i]) {
            assert(alike(prefix@, scalars@[j as int], scalars@[i as int]));
            return false;
        }
        j += 1;
    }
    true
}

fn members_of(prefix: &Vec<u8>, scalars: &Vec<ScalarSpan>, i: usize) -> (group: Vec<ScalarSpan>)
    requires
        i < scalars@.len(),
        forall|k: int|
            0 <= k < scalars@.len() ==> valid_scalar_spec(
                prefix@.len() as int,
                #[trigger] scalars@[k],
            ),
    ensures
        group@ == members(prefix@, scalars@, i as int),
{
    let mut group: Vec<ScalarSpan> = Vec::new();
    let ghost part = member_part(prefix@, scalars@, i as int);
    assert(group@ =~= Seq::<ScalarSpan>::empty());
    let count: usize = scalars.len();
    let mut j: usize = i;
    while j < count
        invariant
            i <= j <= count,
            i < count,
            count == scalars@.len(),
            part == member_part(prefix@, scalars@, i as int),
            forall|k: int|
                0 <= k < scalars@.len() ==> valid_scalar_spec(
                    prefix@.len() as int,
                    #[trigger] scalars@[k],
                ),
            group@ == flat((j - i) as nat, part),
        decreases count - j,
    {
        let ghost listed = group@;
        let ghost k = j - i;
        assert(scalars@[i + k] == scalars@[j as int]);
        if are_alike(prefix, &scalars[i], &scalars[j]) {
            group.push(scalars[j]);
        }
        j += 1;
        assert(group@ =~= listed + part(k));
    }
    group
}

/// One rank for all of them.
fn writes_for(scalars: &Vec<ScalarSpan>, rank: u128) -> (writes: Vec<ScalarRankWrite>)
    ensures
        writes@ == rank_writes(scalars@, rank as int),
{
    let mut writes: Vec<ScalarRankWrite> = Vec::with_capacity(scalars.len());
    let mut k: usize = 0;
    while k < scalars.len()
        invariant
            k <= scalars@.len(),
            writes@.len() == k,
            forall|j: int| 0 <= j < k ==> #[trigger] writes@[j] == rank_write(
                scalars@[j],
                rank as int,
            ),
        decreases scalars@.len() - k,
    {
        let scalar = scalars[k];
        writes.push(ScalarRankWrite { start: scalar.start, width: scalar.len(), value: rank });
        k += 1;
    }
    assert(writes@ =~= rank_writes(scalars@, rank as int));
    writes
}

/// Append other ranks for the group of scalar `i`.
fn push_group_targets(
    specs: &mut Vec<ReductionSpec>,
    prefix: &Vec<u8>,
    scalars: &Vec<ScalarSpan>,
    group: &Vec<ScalarSpan>,
    i: usize,
    pressure: &Vec<u16>,
)
    requires
        i < scalars@.len(),
        valid_scalar_spec(prefix@.len() as int, scalars@[i as int]),
        group@ == members(prefix@, scalars@, i as int),
    ensures
        spec_models(final(specs)@) == spec_models(old(specs)@) + flat(
            scalar_group_targets_spec(
                scalars@[i as int],
                rank_of(prefix@, scalars@[i as int]),
            ).len(),
            group_targets(prefix@, scalars@, i as int, pressure@),
        ),
{
    let ghost before = spec_models(specs@);
    let ghost part = group_targets(prefix@, scalars@, i as int, pressure@);
    let scalar = scalars[i];
    let current: u128 = read_scalar_rank(prefix, &scalar);
    let targets = scalar_group_targets(&scalar, current);
    let mut t: usize = 0;
    assert(before + flat(0, part) =~= before);
    while t < targets.len()
        invariant
            t <= targets@.len(),
            scalar == scalars@[i as int],
            current == rank_of(prefix@, scalar),
            group@ == members(prefix@, scalars@, i as int),
            part == group_targets(prefix@, scalars@, i as int, pressure@),
            rank_ints(targets@) == scalar_group_targets_spec(scalar, current as int),
            spec_models(specs@) == before + flat(t as nat, part),
        decreases targets@.len() - t,
    {
        let ghost listed = spec_models(specs@);
        assert(rank_ints(targets@)[t as int] == targets@[t as int] as int);
        let op = ReductionOp::set_scalar_ranks(writes_for(group, targets[t]), t as u64);
        let bias: u64 = range_weight(pressure, op.start, op.len);
        push_spec(specs, op, bias);
        t += 1;
        assert(listed + part(t - 1) =~= before + flat(t as nat, part));
    }
    assert(rank_ints(targets@).len() == targets@.len());
}

/// Other ranks for groups of like scalars.
pub fn scalar_group_specs(
    prefix: &Vec<u8>,
    scalars: &Vec<ScalarSpan>,
    pressure: &Vec<u16>,
    limit: usize,
) -> (specs: Vec<ReductionSpec>)
    ensures
        spec_models(specs@) == scalar_group_list(prefix@, scalars@, pressure@, limit),
{
    let list = usable_scalars(prefix.len(), scalars, limit);
    let mut specs: Vec<ReductionSpec> = Vec::new();
    assert(spec_models(specs@) =~= Seq::<SpecModel>::empty());
    let ghost part = group_part(prefix@, list@, pressure@);
    let mut i: usize = 0;
    while i < list.len()
        invariant
            i <= list@.len(),
            forall|k: int|
                0 <= k < list@.len() ==> valid_scalar_spec(
                    prefix@.len() as int,
                    #[trigger] list@[k],
                ),
            part == group_part(prefix@, list@, pressure@),
            spec_models(specs@) == flat(i as nat, part),
        decreases list@.len() - i,
    {
        let ghost listed = spec_models(specs@);
        assert(listed + Seq::<SpecModel>::empty() =~= listed);
        if is_first_of_kind(prefix, &list, i) {
            let group = members_of(prefix, &list, i);
            if group.len() >= 2 {
                push_group_targets(&mut specs, prefix, &list, &group, i, pressure);
            }
        }
        i += 1;
        assert(spec_models(specs@) == listed + part(i - 1));
    }
    specs
}

/// A scalar and its rank.
#[derive(Debug, Clone, Copy, PartialEq, Eq, Structural)]
pub struct ScalarRank {
    pub scalar: ScalarSpan,
    pub current: u128,
}

/// A scalar in the path with a rank above zero, or nothing.
pub open spec fn ranked_part(
    prefix: Seq<u8>,
    scalars: Seq<ScalarSpan>,
) -> spec_fn(int) -> Seq<ScalarRank> {
    |i: int|
        if valid_scalar_spec(prefix.len() as int, scalars[i]) && rank_of(prefix, scalars[i]) > 0 {
            seq![
                ScalarRank {
                    scalar: scalars[i],
                    current: rank_of(prefix, scalars[i]) as u128,
                },
            ]
        } else {
            Seq::empty()
        }
}

/// Scalars of one form stand together, in the order of the path.
pub open spec fn form_key(rank: ScalarRank) -> Seq<u64> {
    seq![
        span_len(rank.scalar.start, rank.scalar.end) as u64,
        (rank.scalar.span / 0x1_0000_0000_0000_0000) as u64,
        (rank.scalar.span % 0x1_0000_0000_0000_0000) as u64,
        rank.scalar.start as u64,
    ]
}

pub open spec fn form_keys() -> spec_fn(ScalarRank) -> Seq<u64> {
    |rank: ScalarRank| form_key(rank)
}

/// The first scalars with a rank above zero, by form.
pub open spec fn ranked(prefix: Seq<u8>, scalars: Seq<ScalarSpan>, limit: usize) -> Seq<ScalarRank> {
    sorted_by(flat(at_most(scalars.len(), limit), ranked_part(prefix, scalars)), form_keys())
}

/// The first scalars with a rank above zero, by form.
fn ranked_scalars(prefix: &Vec<u8>, scalars: &Vec<ScalarSpan>, limit: usize) -> (list: Vec<
    ScalarRank,
>)
    ensures
        list@ == ranked(prefix@, scalars@, limit),
{
    let mut found: Vec<ScalarRank> = Vec::new();
    let mut keys: Vec<Vec<u64>> = Vec::new();
    let ghost part = ranked_part(prefix@, scalars@);
    let n: usize = limited(scalars.len(), limit);
    let mut i: usize = 0;
    assert(found@ =~= Seq::<ScalarRank>::empty());
    while i < n
        invariant
            i <= n <= scalars@.len(),
            part == ranked_part(prefix@, scalars@),
            found@ == flat(i as nat, part),
            keys@.len() == found@.len(),
            forall|k: int| 0 <= k < found@.len() ==> (#[trigger] keys@[k])@ == form_key(found@[k]),
        decreases n - i,
    {
        let ghost listed = found@;
        let scalar = scalars[i];
        if valid_scalar(prefix.len(), &scalar) {
            let current: u128 = read_scalar_rank(prefix, &scalar);
            if current > 0 {
                let rank = ScalarRank { scalar, current };
                let len: u64 = scalar.len() as u64;
                let high: u64 = (scalar.span / 0x1_0000_0000_0000_0000) as u64;
                let low: u64 = (scalar.span % 0x1_0000_0000_0000_0000) as u64;
                let start: u64 = scalar.start as u64;
                let key: Vec<u64> = vec![len, high, low, start];
                assert(key@ =~= form_key(rank));
                keys.push(key);
                found.push(rank);
            }
        }
        i += 1;
        assert(found@ =~= listed + part(i - 1));
    }
    let order = stable_order(&keys);
    proof {
        lemma_sorted_by_is_arranged(found@, keys@, order@, form_keys());
    }
    let mut list: Vec<ScalarRank> = Vec::with_capacity(order.len());
    let mut k: usize = 0;
    while k < order.len()
        invariant
            k <= order@.len(),
            forall|j: int| 0 <= j < order@.len() ==> #[trigger] order@[j] < found@.len(),
            list@ == arranged(found@, order@).take(k as int),
        decreases order@.len() - k,
    {
        list.push(found[order[k]]);
        k += 1;
        assert(list@ =~= arranged(found@, order@).take(k as int));
    }
    assert(list@ =~= arranged(found@, order@));
    list
}

/// The least rank.
pub open spec fn least_rank(cohort: Seq<ScalarRank>) -> int
    decreases cohort.len(),
{
    if cohort.len() == 0 {
        u128::MAX as int
    } else {
        let rest = least_rank(cohort.drop_last());
        if cohort.last().current < rest {
            cohort.last().current as int
        } else {
            rest
        }
    }
}

/// Every rank can be lowered by `delta`.
pub open spec fn all_allowed(cohort: Seq<ScalarRank>, delta: int) -> bool {
    forall|k: int|
        0 <= k < cohort.len() ==> less_by((#[trigger] cohort[k]).current as int, delta)
            < rank_limit(cohort[k].scalar)
}

/// `known` and the amounts that bring rank `i` of the cohort to one of its first `n` targets.
pub open spec fn more_deltas(
    cohort: Seq<ScalarRank>,
    i: int,
    n: nat,
    known: Seq<int>,
) -> Seq<int>
    decreases n,
{
    if n == 0 {
        known
    } else {
        let rest = more_deltas(cohort, i, (n - 1) as nat, known);
        let current = cohort[i].current as int;
        let target = scalar_common_offset_targets_spec(cohort[i].scalar, current)[n - 1];
        let delta = current - target;
        if delta > 0 && delta <= least_rank(cohort) && !rest.contains(delta) && all_allowed(
            cohort,
            delta,
        ) {
            rest.push(delta)
        } else {
            rest
        }
    }
}

/// The amounts that bring one of the first `n` ranks to one of its targets and lower every rank.
pub open spec fn deltas_of(cohort: Seq<ScalarRank>, n: nat) -> Seq<int>
    decreases n,
{
    if n == 0 {
        Seq::empty()
    } else {
        let i = n - 1;
        more_deltas(
            cohort,
            i,
            scalar_common_offset_targets_spec(cohort[i].scalar, cohort[i].current as int).len(),
            deltas_of(cohort, (n - 1) as nat),
        )
    }
}

/// Every rank, lowered by `delta`.
pub open spec fn lowered_writes(cohort: Seq<ScalarRank>, delta: int) -> Seq<ScalarRankWrite> {
    Seq::new(
        cohort.len(),
        |k: int| rank_write(cohort[k].scalar, less_by(cohort[k].current as int, delta)),
    )
}

/// The cohort lowered by each amount.
pub open spec fn cohort_part(cohort: Seq<ScalarRank>) -> spec_fn(int) -> Seq<SpecModel> {
    |d: int|
        one(
            set_scalar_ranks_op(
                lowered_writes(cohort, deltas_of(cohort, cohort.len())[d]),
                d as u64,
            ),
        )
}

/// The cohort lowered by each amount.
pub open spec fn cohort_list(cohort: Seq<ScalarRank>) -> Seq<SpecModel> {
    flat(deltas_of(cohort, cohort.len()).len(), cohort_part(cohort))
}

/// Cohorts of `width` scalars in a row.
pub open spec fn window_cohorts(
    group: Seq<ScalarRank>,
    width: int,
) -> spec_fn(int) -> Seq<SpecModel> {
    |s: int| cohort_list(group.subrange(s, s + width))
}

/// Sizes of the cohorts.
pub open spec fn cohort_widths() -> Seq<int> {
    seq![8, 4, 3, 2]
}

/// Cohorts of each size.
pub open spec fn width_cohorts(group: Seq<ScalarRank>) -> spec_fn(int) -> Seq<SpecModel> {
    |w: int|
        {
            let width = cohort_widths()[w];
            if width >= group.len() {
                Seq::empty()
            } else {
                flat((group.len() - width + 1) as nat, window_cohorts(group, width))
            }
        }
}

/// A group of scalars of one form: all of them, then smaller cohorts.
pub open spec fn offset_group_list(group: Seq<ScalarRank>) -> Seq<SpecModel> {
    if group.len() < 2 {
        Seq::empty()
    } else {
        cohort_list(group) + flat(4, width_cohorts(group))
    }
}

/// The scalars have one form.
pub open spec fn same_form(a: ScalarRank, b: ScalarRank) -> bool {
    span_len(a.scalar.start, a.scalar.end) == span_len(b.scalar.start, b.scalar.end)
        && a.scalar.span == b.scalar.span
}

/// End of the run of scalars from `end` on that have the form of scalar `start`.
pub open spec fn form_end(list: Seq<ScalarRank>, start: int, end: int) -> int
    decreases list.len() - end,
{
    if end < 0 || end >= list.len() || !same_form(list[start], list[end]) {
        end
    } else {
        form_end(list, start, end + 1)
    }
}

pub(crate) proof fn lemma_form_end(list: Seq<ScalarRank>, start: int, end: int)
    requires
        0 <= end <= list.len(),
    ensures
        end <= form_end(list, start, end) <= list.len(),
    decreases list.len() - end,
{
    if end < list.len() && same_form(list[start], list[end]) {
        lemma_form_end(list, start, end + 1);
    }
}

/// The groups from scalar `start` on.
pub open spec fn offset_groups(list: Seq<ScalarRank>, start: int) -> Seq<SpecModel>
    decreases list.len() - start,
    via offset_groups_decreases
{
    if start < 0 || start >= list.len() {
        Seq::empty()
    } else {
        let end = form_end(list, start, start + 1);
        offset_group_list(list.subrange(start, end)) + offset_groups(list, end)
    }
}

#[via_fn]
proof fn offset_groups_decreases(list: Seq<ScalarRank>, start: int) {
    if 0 <= start < list.len() {
        lemma_form_end(list, start, start + 1);
    }
}

/// Scalars of one form, lowered by the same amount.
pub open spec fn scalar_common_offset_list(
    prefix: Seq<u8>,
    scalars: Seq<ScalarSpan>,
    limit: usize,
) -> Seq<SpecModel> {
    offset_groups(ranked(prefix, scalars, limit), 0)
}

fn least(cohort: &Vec<ScalarRank>) -> (least: u128)
    ensures
        least == least_rank(cohort@),
{
    let mut least: u128 = u128::MAX;
    let mut i: usize = 0;
    assert(cohort@.take(0) =~= Seq::<ScalarRank>::empty());
    while i < cohort.len()
        invariant
            i <= cohort@.len(),
            least == least_rank(cohort@.take(i as int)),
        decreases cohort@.len() - i,
    {
        assert(cohort@.take(i + 1).drop_last() =~= cohort@.take(i as int));
        if cohort[i].current < least {
            least = cohort[i].current;
        }
        i += 1;
    }
    assert(cohort@.take(cohort@.len() as int) =~= cohort@);
    least
}

fn is_all_allowed(cohort: &Vec<ScalarRank>, delta: u128) -> (allowed: bool)
    ensures
        allowed == all_allowed(cohort@, delta as int),
{
    let mut k: usize = 0;
    while k < cohort.len()
        invariant
            k <= cohort@.len(),
            forall|j: int|
                0 <= j < k ==> less_by((#[trigger] cohort@[j]).current as int, delta as int)
                    < rank_limit(cohort@[j].scalar),
        decreases cohort@.len() - k,
    {
        let rank = cohort[k];
        let lowered: u128 = rank.current.saturating_sub(delta);
        if !scalar_target_allowed(&rank.scalar, lowered) {
            assert(cohort@[k as int] == rank);
            return false;
        }
        k += 1;
    }
    true
}

fn has_delta(deltas: &Vec<u128>, delta: u128) -> (found: bool)
    ensures
        found == rank_ints(deltas@).contains(delta as int),
{
    let mut i: usize = 0;
    while i < deltas.len()
        invariant
            i <= deltas@.len(),
            forall|k: int| 0 <= k < i ==> deltas@[k] != delta,
        decreases deltas@.len() - i,
    {
        if deltas[i] == delta {
            assert(rank_ints(deltas@)[i as int] == delta as int);
            return true;
        }
        i += 1;
    }
    false
}

/// The amounts that bring one of the ranks to one of its targets and lower every rank.
pub fn scalar_common_offset_deltas(cohort: &Vec<ScalarRank>) -> (deltas: Vec<u128>)
    ensures
        rank_ints(deltas@) == deltas_of(cohort@, cohort@.len()),
{
    let max_delta: u128 = least(cohort);
    let mut deltas: Vec<u128> = Vec::new();
    let mut i: usize = 0;
    assert(rank_ints(deltas@) =~= Seq::<int>::empty());
    while i < cohort.len()
        invariant
            i <= cohort@.len(),
            max_delta == least_rank(cohort@),
            rank_ints(deltas@) == deltas_of(cohort@, i as nat),
        decreases cohort@.len() - i,
    {
        let rank = cohort[i];
        let targets = scalar_common_offset_targets(&rank.scalar, rank.current);
        let ghost known = deltas_of(cohort@, i as nat);
        let ghost all = scalar_common_offset_targets_spec(rank.scalar, rank.current as int);
        let mut t: usize = 0;
        while t < targets.len()
            invariant
                i < cohort@.len(),
                rank == cohort@[i as int],
                max_delta == least_rank(cohort@),
                all == scalar_common_offset_targets_spec(rank.scalar, rank.current as int),
                rank_ints(targets@) == all,
                t <= targets@.len(),
                rank_ints(deltas@) == more_deltas(cohort@, i as int, t as nat, known),
            decreases targets@.len() - t,
        {
            let target: u128 = targets[t];
            assert(rank_ints(targets@)[t as int] == target as int);
            if target < rank.current {
                let delta: u128 = rank.current - target;
                if delta <= max_delta && !has_delta(&deltas, delta) && is_all_allowed(
                    cohort,
                    delta,
                ) {
                    let ghost before = deltas@;
                    deltas.push(delta);
                    assert(rank_ints(deltas@) =~= rank_ints(before).push(delta as int));
                }
            }
            t += 1;
        }
        assert(rank_ints(targets@).len() == targets@.len());
        i += 1;
    }
    deltas
}

/// Append the cohort lowered by each amount.
fn push_cohort(specs: &mut Vec<ReductionSpec>, cohort: &Vec<ScalarRank>)
    ensures
        spec_models(final(specs)@) == spec_models(old(specs)@) + cohort_list(cohort@),
{
    let ghost before = spec_models(specs@);
    let ghost part = cohort_part(cohort@);
    let deltas = scalar_common_offset_deltas(cohort);
    let mut d: usize = 0;
    assert(before + flat(0, part) =~= before);
    while d < deltas.len()
        invariant
            d <= deltas@.len(),
            part == cohort_part(cohort@),
            rank_ints(deltas@) == deltas_of(cohort@, cohort@.len()),
            spec_models(specs@) == before + flat(d as nat, part),
        decreases deltas@.len() - d,
    {
        let ghost listed = spec_models(specs@);
        let delta: u128 = deltas[d];
        assert(rank_ints(deltas@)[d as int] == delta as int);
        let mut writes: Vec<ScalarRankWrite> = Vec::with_capacity(cohort.len());
        let mut k: usize = 0;
        while k < cohort.len()
            invariant
                k <= cohort@.len(),
                writes@.len() == k,
                forall|j: int|
                    0 <= j < k ==> #[trigger] writes@[j] == lowered_writes(
                        cohort@,
                        delta as int,
                    )[j],
            decreases cohort@.len() - k,
        {
            let rank = cohort[k];
            writes.push(
                ScalarRankWrite {
                    start: rank.scalar.start,
                    width: rank.scalar.len(),
                    value: rank.current.saturating_sub(delta),
                },
            );
            k += 1;
        }
        assert(writes@ =~= lowered_writes(cohort@, delta as int));
        push_spec(specs, ReductionOp::set_scalar_ranks(writes, d as u64), 0);
        d += 1;
        assert(listed + part(d - 1) =~= before + flat(d as nat, part));
    }
    assert(rank_ints(deltas@).len() == deltas@.len());
}

/// The scalars `start..end`.
fn part_of(list: &Vec<ScalarRank>, start: usize, end: usize) -> (part: Vec<ScalarRank>)
    requires
        start <= end <= list@.len(),
    ensures
        part@ == list@.subrange(start as int, end as int),
{
    let mut part: Vec<ScalarRank> = Vec::with_capacity(end - start);
    let mut i: usize = start;
    while i < end
        invariant
            start <= i <= end <= list@.len(),
            part@ == list@.subrange(start as int, i as int),
        decreases end - i,
    {
        part.push(list[i]);
        i += 1;
        assert(part@ =~= list@.subrange(start as int, i as int));
    }
    part
}

/// Append a group of scalars of one form: all of them, then smaller cohorts.
fn push_offset_group(specs: &mut Vec<ReductionSpec>, group: &Vec<ScalarRank>)
    ensures
        spec_models(final(specs)@) == spec_models(old(specs)@) + offset_group_list(group@),
{
    let ghost before = spec_models(specs@);
    let count: usize = group.len();
    if count < 2 {
        assert(before + Seq::<SpecModel>::empty() =~= before);
        return;
    }
    push_cohort(specs, group);
    let ghost whole = cohort_list(group@);
    let ghost part = width_cohorts(group@);
    let widths: Vec<usize> = vec![8, 4, 3, 2];
    assert(crate::targets::size_ints(widths@) =~= cohort_widths());
    let mut w: usize = 0;
    assert(before + whole + flat(0, part) =~= before + whole);
    while w < widths.len()
        invariant
            w <= widths@.len(),
            widths@.len() == 4,
            count == group@.len(),
            part == width_cohorts(group@),
            crate::targets::size_ints(widths@) == cohort_widths(),
            spec_models(specs@) == before + whole + flat(w as nat, part),
        decreases widths@.len() - w,
    {
        let ghost listed = spec_models(specs@);
        let width: usize = widths[w];
        assert(crate::targets::size_ints(widths@)[w as int] == width as int);
        assert(listed + Seq::<SpecModel>::empty() =~= listed);
        if width < count {
            let ghost windows = window_cohorts(group@, width as int);
            let mut s: usize = 0;
            assert(listed + flat(0, windows) =~= listed);
            while s <= count - width
                invariant
                    count == group@.len(),
                    0 < width < count,
                    s <= count - width + 1,
                    windows == window_cohorts(group@, width as int),
                    spec_models(specs@) == listed + flat(s as nat, windows),
                decreases count - s,
            {
                let ghost sofar = spec_models(specs@);
                let cohort = part_of(group, s, s + width);
                push_cohort(specs, &cohort);
                s += 1;
                assert(sofar + windows(s - 1) =~= listed + flat(s as nat, windows));
            }
        }
        w += 1;
        assert(spec_models(specs@) == listed + part(w - 1));
        assert(listed + part(w - 1) =~= before + whole + flat(w as nat, part));
    }
    assert(before + whole + flat(4, part) =~= before + (whole + flat(4, part)));
}

/// Scalars of one form, lowered by the same amount.
pub fn scalar_common_offset_specs(prefix: &Vec<u8>, scalars: &Vec<ScalarSpan>, limit: usize) -> (specs:
    Vec<ReductionSpec>)
    ensures
        spec_models(specs@) == scalar_common_offset_list(prefix@, scalars@, limit),
{
    let list = ranked_scalars(prefix, scalars, limit);
    let mut specs: Vec<ReductionSpec> = Vec::new();
    assert(spec_models(specs@) =~= Seq::<SpecModel>::empty());
    let ghost all = offset_groups(list@, 0);
    assert(spec_models(specs@) + all =~= all);
    let mut start: usize = 0;
    while start < list.len()
        invariant
            start <= list@.len(),
            spec_models(specs@) + offset_groups(list@, start as int) == all,
        decreases list@.len() - start,
    {
        let first = list[start];
        let mut end: usize = start + 1;
        while end < list.len() && list[end].scalar.len() == first.scalar.len()
            && list[end].scalar.span == first.scalar.span
            invariant
                start < end <= list@.len(),
                first == list@[start as int],
                form_end(list@, start as int, start + 1) == form_end(
                    list@,
                    start as int,
                    end as int,
                ),
            decreases list@.len() - end,
        {
            end += 1;
        }
        assert(form_end(list@, start as int, start + 1) == end);
        let ghost listed = spec_models(specs@);
        let group = part_of(&list, start, end);
        push_offset_group(&mut specs, &group);
        assert(listed + (offset_group_list(group@) + offset_groups(list@, end as int))
            =~= spec_models(specs@) + offset_groups(list@, end as int));
        start = end;
    }
    assert(spec_models(specs@) + Seq::<SpecModel>::empty() =~= spec_models(specs@));
    specs
}

} // verus!
