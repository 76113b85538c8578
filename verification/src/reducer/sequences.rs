//! Reductions of generated sequences: fewer items, or simpler ones in place of others.

use crate::mutation::KeptItem;
use crate::order::{bytes_less, less_bytes};
use crate::reducer::bytes::{nonzero, nonzero_count, one};
use crate::reducer::ranking::{at_most, flat, key_sum, limited};
use crate::reduction::{
    delete_sequence_items_op, project_sequence_items_op, push_spec, spec_models, ReductionOp,
    ReductionSpec, SpecModel,
};
use crate::targets::{
    block_starts, block_starts_spec, counting, has_size, kept_once, kept_once_is_bounded, less_by,
    sequence_keep_sizes, sequence_keep_sizes_spec, shrink_sizes_including_full,
    shrink_sizes_including_full_spec, size_ints, steps,
};
use crate::trace::{sequence_models, span_len, ItemSpan, SequenceModel, SequenceSpan};
use vstd::prelude::*;
use vstd::slice::slice_subrange;

verus! {

/// The item holds bytes, and all of them are in the path.
pub open spec fn valid_item(total: int, item: ItemSpan) -> bool {
    item.start < item.end <= total
}

/// The item holds bytes, and all of them are in the path.
pub fn valid_range(total: usize, item: &ItemSpan) -> (valid: bool)
    ensures
        valid == valid_item(total as int, *item),
{
    item.start < item.end && item.end <= total
}

/// The sequence has items, and its length is in the path.
pub open spec fn countable(total: int, sequence: SequenceModel) -> bool {
    &&& sequence.length_len != 0
    &&& sequence.length_start < total
    &&& sequence.length_start + sequence.length_len <= total
    &&& sequence.items.len() > 0
}

fn is_countable(total: usize, sequence: &SequenceSpan) -> (yes: bool)
    ensures
        yes == countable(total as int, sequence@),
{
    sequence.length_len != 0 && sequence.length_start < total && sequence.length_len <= total
        - sequence.length_start && sequence.items.len() > 0
}

/// End of the run of `count` items from `start` on.
pub open spec fn run_end(start: int, count: int, len: int) -> int {
    if start + count <= len {
        start + count
    } else {
        len
    }
}

/// Delete the run of `count` items from `start` on.
pub open spec fn delete_run(
    total: int,
    sequence: SequenceModel,
    start: int,
    count: int,
) -> Seq<SpecModel> {
    let len = sequence.items.len() as int;
    let end = run_end(start, count, len);
    let first = sequence.items[start];
    let last = sequence.items[end - 1];
    if start < end && valid_item(total, first) && valid_item(total, last) && first.start
        < last.end {
        one(
            delete_sequence_items_op(
                sequence.length_start,
                sequence.length_len,
                (len - (end - start)) as usize,
                first.start,
                span_len(first.start, last.end),
            ),
        )
    } else {
        Seq::empty()
    }
}

/// Runs of `count` items, deleted.
pub open spec fn delete_runs(
    total: int,
    sequence: SequenceModel,
    count: int,
) -> spec_fn(int) -> Seq<SpecModel> {
    |b: int|
        delete_run(
            total,
            sequence,
            block_starts_spec(sequence.items.len() as int, count)[b],
            count,
        )
}

/// Runs of each number of items, deleted.
pub open spec fn delete_counts(
    total: int,
    sequence: SequenceModel,
) -> spec_fn(int) -> Seq<SpecModel> {
    |c: int|
        {
            let len = sequence.items.len() as int;
            let count = shrink_sizes_including_full_spec(len)[c];
            flat(block_starts_spec(len, count).len(), delete_runs(total, sequence, count))
        }
}

/// Items of each sequence, deleted.
pub open spec fn sequence_delete_part(
    total: int,
    sequences: Seq<SequenceModel>,
) -> spec_fn(int) -> Seq<SpecModel> {
    |s: int|
        if countable(total, sequences[s]) {
            flat(
                shrink_sizes_including_full_spec(sequences[s].items.len() as int).len(),
                delete_counts(total, sequences[s]),
            )
        } else {
            Seq::empty()
        }
}

/// Items of the first sequences, deleted.
pub open spec fn sequence_delete_list(
    total: int,
    sequences: Seq<SequenceModel>,
    limit: usize,
) -> Seq<SpecModel> {
    flat(at_most(sequences.len(), limit), sequence_delete_part(total, sequences))
}

pub(crate) proof fn lemma_run_starts_bounded(len: int, count: int)
    requires
        len >= 0,
    ensures
        forall|b: int|
            0 <= b < block_starts_spec(len, count).len() ==> 0 <= #[trigger] block_starts_spec(
                len,
                count,
            )[b] < len,
{
    if len != 0 && count != 0 {
        kept_once_is_bounded(
            steps(0, count, len) + (if count > 1 {
                steps(count / 2, count, len)
            } else {
                Seq::empty()
            }) + seq![1, len / 2, less_by(len, count)],
            0,
            len,
            -1,
        );
    }
}

/// Sizes of the runs that are deleted are at least one.
proof fn lemma_counts_bounded(len: int)
    requires
        len > 0,
    ensures
        forall|c: int|
            0 <= c < shrink_sizes_including_full_spec(len).len() ==> 1
                <= #[trigger] shrink_sizes_including_full_spec(len)[c] <= len,
{
    let rest = seq![len / 2, len / 4, len / 8, 1024, 512, 256, 128, 64, 32, 16, 8, 4, 3, 2, 1];
    kept_once_is_bounded(rest, 1, len, -1);
    let all = shrink_sizes_including_full_spec(len);
    assert forall|c: int| 0 <= c < all.len() implies 1 <= #[trigger] all[c] <= len by {
        if c > 0 {
            assert(all[c] == kept_once(rest, 1, len, -1)[c - 1]);
        }
    }
}

/// Append the deletion of the runs of `count` items.
fn push_delete_runs(
    specs: &mut Vec<ReductionSpec>,
    total: usize,
    sequence: &SequenceSpan,
    count: usize,
)
    requires
        1 <= count <= sequence.items@.len(),
    ensures
        spec_models(final(specs)@) == spec_models(old(specs)@) + flat(
            block_starts_spec(sequence@.items.len() as int, count as int).len(),
            delete_runs(total as int, sequence@, count as int),
        ),
{
    let ghost before = spec_models(specs@);
    let ghost part = delete_runs(total as int, sequence@, count as int);
    let len: usize = sequence.items.len();
    let starts = block_starts(len, count);
    proof {
        lemma_run_starts_bounded(len as int, count as int);
    }
    let mut b: usize = 0;
    assert(before + flat(0, part) =~= before);
    while b < starts.len()
        invariant
            b <= starts@.len(),
            len == sequence.items@.len(),
            1 <= count <= len,
            part == delete_runs(total as int, sequence@, count as int),
            size_ints(starts@) == block_starts_spec(len as int, count as int),
            forall|b: int|
                0 <= b < starts@.len() ==> 0 <= #[trigger] block_starts_spec(
                    len as int,
                    count as int,
                )[b] < len,
            spec_models(specs@) == before + flat(b as nat, part),
        decreases starts@.len() - b,
    {
        let ghost listed = spec_models(specs@);
        let start: usize = starts[b];
        assert(size_ints(starts@)[b as int] == start as int);
        let end: usize = if count <= len - start {
            start + count
        } else {
            len
        };
        let first = sequence.items[start];
        let last = sequence.items[end - 1];
        if valid_range(total, &first) && valid_range(total, &last) && first.start < last.end {
            push_spec(
                specs,
                ReductionOp::delete_sequence_items(
                    sequence.length_start,
                    sequence.length_len,
                    len - (end - start),
                    first.start,
                    last.end - first.start,
                ),
                0,
            );
        }
        b += 1;
        assert(spec_models(specs@) =~= listed + part(b - 1));
        assert(listed + part(b - 1) =~= before + flat(b as nat, part));
    }
    assert(size_ints(starts@).len() == starts@.len());
}

/// Items of the first sequences, deleted.
pub fn sequence_delete_specs(prefix: &Vec<u8>, sequences: &Vec<SequenceSpan>, limit: usize) -> (specs:
    Vec<ReductionSpec>)
    ensures
        spec_models(specs@) == sequence_delete_list(
            prefix@.len() as int,
            sequence_models(sequences@),
            limit,
        ),
{
    let mut specs: Vec<ReductionSpec> = Vec::new();
    assert(spec_models(specs@) =~= Seq::<SpecModel>::empty());
    let total: usize = prefix.len();
    let ghost models = sequence_models(sequences@);
    let ghost part = sequence_delete_part(total as int, models);
    let n: usize = limited(sequences.len(), limit);
    let mut s: usize = 0;
    while s < n
        invariant
            s <= n <= sequences@.len(),
            models == sequence_models(sequences@),
            part == sequence_delete_part(total as int, models),
            spec_models(specs@) == flat(s as nat, part),
        decreases n - s,
    {
        let ghost listed = spec_models(specs@);
        assert(models[s as int] == sequences@[s as int]@);
        if is_countable(total, &sequences[s]) {
            let len: usize = sequences[s].items.len();
            let ghost counts = delete_counts(total as int, models[s as int]);
            let sizes = shrink_sizes_including_full(len);
            proof {
                lemma_counts_bounded(len as int);
            }
            let mut c: usize = 0;
            assert(listed + flat(0, counts) =~= listed);
            while c < sizes.len()
                invariant
                    s < sequences@.len(),
                    models[s as int] == sequences@[s as int]@,
                    len == models[s as int].items.len(),
                    c <= sizes@.len(),
                    counts == delete_counts(total as int, models[s as int]),
                    size_ints(sizes@) == shrink_sizes_including_full_spec(len as int),
                    forall|c: int|
                        0 <= c < sizes@.len() ==> 1 <= #[trigger] shrink_sizes_including_full_spec(
                            len as int,
                        )[c] <= len,
                    spec_models(specs@) == listed + flat(c as nat, counts),
                decreases sizes@.len() - c,
            {
                let ghost sofar = spec_models(specs@);
                assert(size_ints(sizes@)[c as int] == sizes@[c as int] as int);
                push_delete_runs(&mut specs, total, &sequences[s], sizes[c]);
                c += 1;
                assert(sofar + counts(c - 1) =~= listed + flat(c as nat, counts));
            }
            assert(size_ints(sizes@).len() == sizes@.len());
        }
        s += 1;
        assert(spec_models(specs@) =~= listed + part(s - 1));
    }
    specs
}

/// From the first byte of the first item to the last byte of the last one, where both are in the
/// path.
pub open spec fn region_spec(total: int, sequence: SequenceModel) -> Option<ItemSpan> {
    let first = sequence.items[0];
    let last = sequence.items.last();
    if countable(total, sequence) && valid_item(total, first) && valid_item(total, last)
        && first.start < last.end {
        Some(ItemSpan { start: first.start, end: last.end })
    } else {
        None
    }
}

/// From the first byte of the first item to the last byte of the last one.
pub fn sequence_region(total: usize, sequence: &SequenceSpan) -> (region: Option<ItemSpan>)
    ensures
        region == region_spec(total as int, sequence@),
{
    if !is_countable(total, sequence) {
        return None;
    }
    let first = sequence.items[0];
    let last = sequence.items[sequence.items.len() - 1];
    if !valid_range(total, &first) || !valid_range(total, &last) || first.start >= last.end {
        return None;
    }
    Some(ItemSpan { start: first.start, end: last.end })
}

/// Every chosen item exists and is in the path.
pub open spec fn choosable(total: int, sequence: SequenceModel, indices: Seq<int>) -> bool {
    forall|i: int|
        0 <= i < indices.len() ==> {
            &&& 0 <= #[trigger] indices[i] < sequence.items.len()
            &&& valid_item(total, sequence.items[indices[i]])
        }
}

/// The chosen items.
pub open spec fn chosen(sequence: SequenceModel, indices: Seq<int>) -> Seq<KeptItem> {
    Seq::new(
        indices.len(),
        |i: int|
            KeptItem {
                start: sequence.items[indices[i]].start,
                len: span_len(
                    sequence.items[indices[i]].start,
                    sequence.items[indices[i]].end,
                ),
            },
    )
}

/// The sequence with these items in place of its own, put off by `bias`; nothing where they are
/// its own or one is not in the path.
pub open spec fn projection(
    total: int,
    sequence: SequenceModel,
    indices: Seq<int>,
    bias: u64,
) -> Seq<SpecModel> {
    match region_spec(total, sequence) {
        Some(region) if indices != counting(sequence.items.len()) && choosable(
            total,
            sequence,
            indices,
        ) => seq![
            SpecModel {
                op: project_sequence_items_op(
                    sequence.length_start,
                    sequence.length_len,
                    indices.len() as usize,
                    region.start,
                    span_len(region.start, region.end),
                    chosen(sequence, indices),
                ),
                bias,
            },
        ],
        _ => Seq::empty(),
    }
}

/// `indices` counts from 0 to below `len`.
fn is_counting(indices: &Vec<usize>, len: usize) -> (yes: bool)
    ensures
        yes == (size_ints(indices@) == counting(len as nat)),
{
    if indices.len() != len {
        assert(size_ints(indices@).len() != counting(len as nat).len());
        return false;
    }
    let mut i: usize = 0;
    while i < len
        invariant
            i <= len,
            len == indices@.len(),
            forall|k: int| 0 <= k < i ==> #[trigger] indices@[k] == k,
        decreases len - i,
    {
        if indices[i] != i {
            assert(size_ints(indices@)[i as int] != counting(len as nat)[i as int]);
            return false;
        }
        i += 1;
    }
    assert(size_ints(indices@) =~= counting(len as nat));
    true
}

/// Append the sequence with these items in place of its own.
pub fn push_sequence_projection(
    total: usize,
    sequence: &SequenceSpan,
    region: &ItemSpan,
    indices: &Vec<usize>,
    bias: u64,
    specs: &mut Vec<ReductionSpec>,
)
    requires
        region_spec(total as int, sequence@) == Some(*region),
    ensures
        spec_models(final(specs)@) == spec_models(old(specs)@) + projection(
            total as int,
            sequence@,
            size_ints(indices@),
            bias,
        ),
{
    let ghost before = spec_models(specs@);
    let ghost ints = size_ints(indices@);
    assert(before + Seq::<SpecModel>::empty() =~= before);
    if is_counting(indices, sequence.items.len()) {
        return;
    }
    let mut items: Vec<KeptItem> = Vec::with_capacity(indices.len());
    let mut i: usize = 0;
    while i < indices.len()
        invariant
            i <= indices@.len(),
            ints == size_ints(indices@),
            ints != counting(sequence@.items.len()),
            before + Seq::<SpecModel>::empty() == before,
            spec_models(specs@) == before,
            items@.len() == i,
            forall|k: int|
                0 <= k < i ==> {
                    &&& 0 <= #[trigger] ints[k] < sequence@.items.len()
                    &&& valid_item(total as int, sequence@.items[ints[k]])
                },
            forall|k: int| 0 <= k < i ==> #[trigger] items@[k] == chosen(sequence@, ints)[k],
        decreases indices@.len() - i,
    {
        let index: usize = indices[i];
        assert(ints[i as int] == index as int);
        if index >= sequence.items.len() {
            return;
        }
        let item = sequence.items[index];
        if !valid_range(total, &item) {
            return;
        }
        items.push(KeptItem { start: item.start, len: item.len() });
        i += 1;
    }
    assert(items@ =~= chosen(sequence@, ints));
    let kept: usize = items.len();
    push_spec(
        specs,
        ReductionOp::project_sequence_items(
            sequence.length_start,
            sequence.length_len,
            kept,
            region.start,
            region.len(),
            items,
        ),
        bias,
    );
    assert(spec_models(specs@) =~= before + projection(total as int, sequence@, ints, bias));
}

/// Places `start..end`.
pub open spec fn run(start: int, end: int) -> Seq<int> {
    Seq::new((end - start) as nat, |i: int| start + i)
}

/// Runs of `keep` items, and nothing else.
pub open spec fn keep_runs(
    total: int,
    sequence: SequenceModel,
    keep: int,
) -> spec_fn(int) -> Seq<SpecModel> {
    |b: int|
        {
            let len = sequence.items.len() as int;
            let start = block_starts_spec(len, keep)[b];
            projection(total, sequence, run(start, run_end(start, keep, len)), keep as u64)
        }
}

/// Runs of each number of items that is worth keeping.
pub open spec fn keep_counts(
    total: int,
    sequence: SequenceModel,
) -> spec_fn(int) -> Seq<SpecModel> {
    |c: int|
        {
            let len = sequence.items.len() as int;
            let keep = sequence_keep_sizes_spec(len)[c];
            flat(block_starts_spec(len, keep).len(), keep_runs(total, sequence, keep))
        }
}

/// No item, runs of items, and every other item.
pub open spec fn sequence_project_part(
    total: int,
    sequences: Seq<SequenceModel>,
) -> spec_fn(int) -> Seq<SpecModel> {
    |s: int|
        {
            let sequence = sequences[s];
            let len = sequence.items.len() as int;
            if region_spec(total, sequence) is Some {
                projection(total, sequence, Seq::empty(), 0) + flat(
                    sequence_keep_sizes_spec(len).len(),
                    keep_counts(total, sequence),
                ) + (if len > 2 {
                    projection(total, sequence, steps(0, 2, len), 64) + projection(
                        total,
                        sequence,
                        steps(1, 2, len),
                        65,
                    )
                } else {
                    Seq::empty()
                })
            } else {
                Seq::empty()
            }
        }
}

/// Fewer items of the first sequences.
pub open spec fn sequence_project_list(
    total: int,
    sequences: Seq<SequenceModel>,
    limit: usize,
) -> Seq<SpecModel> {
    flat(at_most(sequences.len(), limit), sequence_project_part(total, sequences))
}

/// Places `start..end`.
fn run_of(start: usize, end: usize) -> (indices: Vec<usize>)
    requires
        start <= end,
    ensures
        size_ints(indices@) == run(start as int, end as int),
{
    let mut indices: Vec<usize> = Vec::with_capacity(end - start);
    let mut i: usize = start;
    while i < end
        invariant
            start <= i <= end,
            indices@.len() == i - start,
            forall|k: int| 0 <= k < i - start ==> #[trigger] indices@[k] == start + k,
        decreases end - i,
    {
        indices.push(i);
        i += 1;
    }
    assert(size_ints(indices@) =~= run(start as int, end as int));
    indices
}

/// Append runs of `keep` items, and nothing else.
fn push_keep_runs(
    specs: &mut Vec<ReductionSpec>,
    total: usize,
    sequence: &SequenceSpan,
    region: &ItemSpan,
    keep: usize,
)
    requires
        region_spec(total as int, sequence@) == Some(*region),
    ensures
        spec_models(final(specs)@) == spec_models(old(specs)@) + flat(
            block_starts_spec(sequence@.items.len() as int, keep as int).len(),
            keep_runs(total as int, sequence@, keep as int),
        ),
{
    let ghost before = spec_models(specs@);
    let ghost part = keep_runs(total as int, sequence@, keep as int);
    let len: usize = sequence.items.len();
    let starts = block_starts(len, keep);
    proof {
        lemma_run_starts_bounded(len as int, keep as int);
    }
    let mut b: usize = 0;
    assert(before + flat(0, part) =~= before);
    while b < starts.len()
        invariant
            region_spec(total as int, sequence@) == Some(*region),
            b <= starts@.len(),
            len == sequence.items@.len(),
            part == keep_runs(total as int, sequence@, keep as int),
            size_ints(starts@) == block_starts_spec(len as int, keep as int),
            forall|b: int|
                0 <= b < starts@.len() ==> 0 <= #[trigger] block_starts_spec(
                    len as int,
                    keep as int,
                )[b] < len,
            spec_models(specs@) == before + flat(b as nat, part),
        decreases starts@.len() - b,
    {
        let ghost listed = spec_models(specs@);
        let start: usize = starts[b];
        assert(size_ints(starts@)[b as int] == start as int);
        let end: usize = if keep <= len - start {
            start + keep
        } else {
            len
        };
        let indices = run_of(start, end);
        push_sequence_projection(total, sequence, region, &indices, keep as u64, specs);
        b += 1;
        assert(listed + part(b - 1) =~= before + flat(b as nat, part));
    }
    assert(size_ints(starts@).len() == starts@.len());
}

/// Append fewer items of one sequence.
fn push_projections(
    specs: &mut Vec<ReductionSpec>,
    total: usize,
    sequence: &SequenceSpan,
    region: &ItemSpan,
)
    requires
        region_spec(total as int, sequence@) == Some(*region),
    ensures
        spec_models(final(specs)@) == spec_models(old(specs)@) + sequence_project_part(
            total as int,
            seq![sequence@],
        )(0),
{
    let ghost before = spec_models(specs@);
    let len: usize = sequence.items.len();
    let nothing: Vec<usize> = Vec::new();
    assert(size_ints(nothing@) =~= Seq::<int>::empty());
    push_sequence_projection(total, sequence, region, &nothing, 0, specs);
    let ghost none = projection(total as int, sequence@, Seq::empty(), 0);
    let ghost counts = keep_counts(total as int, sequence@);
    let sizes = sequence_keep_sizes(len);
    let mut c: usize = 0;
    assert(before + none + flat(0, counts) =~= before + none);
    while c < sizes.len()
        invariant
            region_spec(total as int, sequence@) == Some(*region),
            c <= sizes@.len(),
            len == sequence@.items.len(),
            counts == keep_counts(total as int, sequence@),
            size_ints(sizes@) == sequence_keep_sizes_spec(len as int),
            spec_models(specs@) == before + none + flat(c as nat, counts),
        decreases sizes@.len() - c,
    {
        let ghost listed = spec_models(specs@);
        assert(size_ints(sizes@)[c as int] == sizes@[c as int] as int);
        push_keep_runs(specs, total, sequence, region, sizes[c]);
        c += 1;
        assert(listed + counts(c - 1) =~= before + none + flat(c as nat, counts));
    }
    assert(size_ints(sizes@).len() == sizes@.len());
    if len > 2 {
        let mut even: Vec<usize> = Vec::new();
        crate::targets::push_steps(&mut even, 0, 2, len);
        assert(size_ints(even@) =~= steps(0, 2, len as int));
        push_sequence_projection(total, sequence, region, &even, 64, specs);
        let mut odd: Vec<usize> = Vec::new();
        crate::targets::push_steps(&mut odd, 1, 2, len);
        assert(size_ints(odd@) =~= steps(1, 2, len as int));
        push_sequence_projection(total, sequence, region, &odd, 65, specs);
    }
    assert(seq![sequence@][0] == sequence@);
    assert(spec_models(specs@) =~= before + sequence_project_part(total as int, seq![sequence@])(0));
}

/// Fewer items of the first sequences.
pub fn sequence_project_specs(
    prefix: &Vec<u8>,
    sequences: &Vec<SequenceSpan>,
    limit: usize,
) -> (specs: Vec<ReductionSpec>)
    ensures
        spec_models(specs@) == sequence_project_list(
            prefix@.len() as int,
            sequence_models(sequences@),
            limit,
        ),
{
    let mut specs: Vec<ReductionSpec> = Vec::new();
    assert(spec_models(specs@) =~= Seq::<SpecModel>::empty());
    let total: usize = prefix.len();
    let ghost models = sequence_models(sequences@);
    let ghost part = sequence_project_part(total as int, models);
    let n: usize = limited(sequences.len(), limit);
    let mut s: usize = 0;
    while s < n
        invariant
            s <= n <= sequences@.len(),
            models == sequence_models(sequences@),
            part == sequence_project_part(total as int, models),
            spec_models(specs@) == flat(s as nat, part),
        decreases n - s,
    {
        let ghost listed = spec_models(specs@);
        assert(models[s as int] == sequences@[s as int]@);
        match sequence_region(total, &sequences[s]) {
            Some(region) => {
                push_projections(&mut specs, total, &sequences[s], &region);
                assert(seq![models[s as int]][0] == models[s as int]);
                assert(sequence_project_part(total as int, seq![models[s as int]])(0) == part(
                    s as int,
                ));
            },
            None => {
                assert(listed + part(s as int) =~= listed);
            },
        }
        s += 1;
    }
    specs
}

/// `source` is simpler than `target`: shorter, or with fewer bytes that are not zero, or first.
pub open spec fn simpler_item(source: Seq<u8>, target: Seq<u8>) -> bool {
    ||| source.len() < target.len()
    ||| source.len() == target.len() && nonzero(source) < nonzero(target)
    ||| source.len() == target.len() && nonzero(source) == nonzero(target) && bytes_less(
        source,
        target,
    )
}

/// The bytes of an item.
pub open spec fn item_bytes(prefix: Seq<u8>, item: ItemSpan) -> Seq<u8> {
    prefix.subrange(item.start as int, item.end as int)
}

/// Both items are in the path, and `source` is simpler.
pub open spec fn replacement_ok(prefix: Seq<u8>, source: ItemSpan, target: ItemSpan) -> bool {
    &&& valid_item(prefix.len() as int, source)
    &&& valid_item(prefix.len() as int, target)
    &&& simpler_item(item_bytes(prefix, source), item_bytes(prefix, target))
}

fn is_simpler_item(source: &[u8], target: &[u8]) -> (simpler: bool)
    ensures
        simpler == simpler_item(source@, target@),
{
    if source.len() != target.len() {
        return source.len() < target.len();
    }
    let source_nonzero: usize = nonzero_count(source);
    let target_nonzero: usize = nonzero_count(target);
    if source_nonzero != target_nonzero {
        return source_nonzero < target_nonzero;
    }
    less_bytes(source, target)
}

/// Both items are in the path, and `source` is simpler.
pub fn item_replacement_simplifies(prefix: &Vec<u8>, source: &ItemSpan, target: &ItemSpan) -> (ok:
    bool)
    ensures
        ok == replacement_ok(prefix@, *source, *target),
{
    if !valid_range(prefix.len(), source) || !valid_range(prefix.len(), target) {
        return false;
    }
    is_simpler_item(
        slice_subrange(prefix.as_slice(), source.start, source.end),
        slice_subrange(prefix.as_slice(), target.start, target.end),
    )
}

/// The simplest of the first `n` items that can stand for item `target`; the first of several.
pub open spec fn simplest_prior(
    prefix: Seq<u8>,
    items: Seq<ItemSpan>,
    target: int,
    n: int,
) -> Option<int>
    decreases n,
{
    if n <= 0 || n > items.len() {
        None
    } else {
        let rest = simplest_prior(prefix, items, target, n - 1);
        if !replacement_ok(prefix, items[n - 1], items[target]) {
            rest
        } else {
            match rest {
                Some(best) => if simpler_item(
                    item_bytes(prefix, items[n - 1]),
                    item_bytes(prefix, items[best]),
                ) {
                    Some(n - 1)
                } else {
                    rest
                },
                None => Some(n - 1),
            }
        }
    }
}

/// The simplest earlier item that can stand for item `target`.
pub fn simplest_prior_item(prefix: &Vec<u8>, sequence: &SequenceSpan, target: usize) -> (source:
    Option<usize>)
    requires
        target < sequence.items@.len(),
    ensures
        match source {
            Some(source) => simplest_prior(
                prefix@,
                sequence@.items,
                target as int,
                target as int,
            ) == Some(source as int) && source < target,
            None => simplest_prior(
                prefix@,
                sequence@.items,
                target as int,
                target as int,
            ) is None,
        },
{
    let mut best: Option<usize> = None;
    let mut i: usize = 0;
    while i < target
        invariant
            i <= target < sequence.items@.len(),
            match best {
                Some(best) => {
                    &&& best < i
                    &&& simplest_prior(prefix@, sequence@.items, target as int, i as int) == Some(
                        best as int,
                    )
                    &&& valid_item(prefix@.len() as int, sequence@.items[best as int])
                },
                None => simplest_prior(
                    prefix@,
                    sequence@.items,
                    target as int,
                    i as int,
                ) is None,
            },
        decreases target - i,
    {
        let item = sequence.items[i];
        if item_replacement_simplifies(prefix, &item, &sequence.items[target]) {
            match best {
                Some(index) => {
                    let known = sequence.items[index];
                    if is_simpler_item(
                        slice_subrange(prefix.as_slice(), item.start, item.end),
                        slice_subrange(prefix.as_slice(), known.start, known.end),
                    ) {
                        best = Some(i);
                    }
                },
                None => {
                    best = Some(i);
                },
            }
        }
        i += 1;
    }
    best
}

/// `sources` with `source` behind them, where it can stand for item `target` and is not there.
pub open spec fn with_source(
    prefix: Seq<u8>,
    items: Seq<ItemSpan>,
    target: int,
    source: int,
    sources: Seq<int>,
) -> Seq<int> {
    if source < target && !sources.contains(source) && replacement_ok(
        prefix,
        items[source],
        items[target],
    ) {
        sources.push(source)
    } else {
        sources
    }
}

/// The earlier items that are put in place of item `target`: the first, the one before it, and the
/// simplest.
pub open spec fn sources_spec(prefix: Seq<u8>, items: Seq<ItemSpan>, target: int) -> Seq<int> {
    let first = with_source(prefix, items, target, 0, Seq::empty());
    let second = with_source(prefix, items, target, target - 1, first);
    match simplest_prior(prefix, items, target, target) {
        Some(source) => with_source(prefix, items, target, source, second),
        None => second,
    }
}

fn push_replacement_source(
    prefix: &Vec<u8>,
    sequence: &SequenceSpan,
    target: usize,
    source: usize,
    sources: &mut Vec<usize>,
)
    requires
        target < sequence.items@.len(),
        source < target,
    ensures
        size_ints(final(sources)@) == with_source(
            prefix@,
            sequence@.items,
            target as int,
            source as int,
            size_ints(old(sources)@),
        ),
{
    if has_size(sources, source) {
        return;
    }
    if item_replacement_simplifies(prefix, &sequence.items[source], &sequence.items[target]) {
        let ghost before = sources@;
        sources.push(source);
        assert(size_ints(sources@) =~= size_ints(before).push(source as int));
    }
}

/// The earlier items that are put in place of item `target`.
pub fn replacement_sources(prefix: &Vec<u8>, sequence: &SequenceSpan, target: usize) -> (sources:
    Vec<usize>)
    requires
        0 < target < sequence.items@.len(),
    ensures
        size_ints(sources@) == sources_spec(prefix@, sequence@.items, target as int),
{
    let mut sources: Vec<usize> = Vec::new();
    assert(size_ints(sources@) =~= Seq::<int>::empty());
    push_replacement_source(prefix, sequence, target, 0, &mut sources);
    push_replacement_source(prefix, sequence, target, target - 1, &mut sources);
    match simplest_prior_item(prefix, sequence, target) {
        Some(source) => push_replacement_source(prefix, sequence, target, source, &mut sources),
        None => {},
    }
    sources
}

/// Item `target` with each of its sources in its place.
pub open spec fn replace_sources(
    prefix: Seq<u8>,
    sequence: SequenceModel,
    target: int,
) -> spec_fn(int) -> Seq<SpecModel> {
    |k: int|
        projection(
            prefix.len() as int,
            sequence,
            counting(sequence.items.len()).update(
                target,
                sources_spec(prefix, sequence.items, target)[k],
            ),
            key_sum(128, target),
        )
}

/// Each item but the first.
pub open spec fn replace_targets(
    prefix: Seq<u8>,
    sequence: SequenceModel,
) -> spec_fn(int) -> Seq<SpecModel> {
    |t: int|
        flat(
            sources_spec(prefix, sequence.items, t + 1).len(),
            replace_sources(prefix, sequence, t + 1),
        )
}

/// Items of each sequence, replaced by earlier ones.
pub open spec fn sequence_replace_part(
    prefix: Seq<u8>,
    sequences: Seq<SequenceModel>,
) -> spec_fn(int) -> Seq<SpecModel> {
    |s: int|
        {
            let sequence = sequences[s];
            if region_spec(prefix.len() as int, sequence) is Some && sequence.items.len() >= 2 {
                flat((sequence.items.len() - 1) as nat, replace_targets(prefix, sequence))
            } else {
                Seq::empty()
            }
        }
}

/// Items of the first sequences, replaced by simpler earlier ones.
pub open spec fn sequence_replace_list(
    prefix: Seq<u8>,
    sequences: Seq<SequenceModel>,
    limit: usize,
) -> Seq<SpecModel> {
    flat(at_most(sequences.len(), limit), sequence_replace_part(prefix, sequences))
}

/// Append item `target` with each of its sources in its place.
fn push_replacements(
    specs: &mut Vec<ReductionSpec>,
    prefix: &Vec<u8>,
    sequence: &SequenceSpan,
    region: &ItemSpan,
    target: usize,
)
    requires
        region_spec(prefix@.len() as int, sequence@) == Some(*region),
        0 < target < sequence.items@.len(),
    ensures
        spec_models(final(specs)@) == spec_models(old(specs)@) + flat(
            sources_spec(prefix@, sequence@.items, target as int).len(),
            replace_sources(prefix@, sequence@, target as int),
        ),
{
    let ghost before = spec_models(specs@);
    let ghost part = replace_sources(prefix@, sequence@, target as int);
    let total: usize = prefix.len();
    let len: usize = sequence.items.len();
    let sources = replacement_sources(prefix, sequence, target);
    let bias: u64 = (128u64).saturating_add(target as u64);
    let mut k: usize = 0;
    assert(before + flat(0, part) =~= before);
    while k < sources.len()
        invariant
            region_spec(total as int, sequence@) == Some(*region),
            total == prefix@.len(),
            len == sequence.items@.len(),
            0 < target < len,
            bias == key_sum(128, target as int),
            k <= sources@.len(),
            part == replace_sources(prefix@, sequence@, target as int),
            size_ints(sources@) == sources_spec(prefix@, sequence@.items, target as int),
            spec_models(specs@) == before + flat(k as nat, part),
        decreases sources@.len() - k,
    {
        let ghost listed = spec_models(specs@);
        assert(size_ints(sources@)[k as int] == sources@[k as int] as int);
        let mut indices = run_of(0, len);
        let ghost counted = indices@;
        assert(size_ints(counted).len() == counted.len());
        indices.set(target, sources[k]);
        assert(size_ints(indices@) =~= counting(len as nat).update(
            target as int,
            sources@[k as int] as int,
        )) by {
            assert forall|i: int| 0 <= i < len implies #[trigger] size_ints(indices@)[i]
                == counting(len as nat).update(target as int, sources@[k as int] as int)[i] by {
                assert(size_ints(counted)[i] == run(0, len as int)[i]);
            }
        }
        push_sequence_projection(total, sequence, region, &indices, bias, specs);
        k += 1;
        assert(listed + part(k - 1) =~= before + flat(k as nat, part));
    }
    assert(size_ints(sources@).len() == sources@.len());
}

/// Items of the first sequences, replaced by simpler earlier ones.
pub fn sequence_replace_specs(
    prefix: &Vec<u8>,
    sequences: &Vec<SequenceSpan>,
    limit: usize,
) -> (specs: Vec<ReductionSpec>)
    ensures
        spec_models(specs@) == sequence_replace_list(prefix@, sequence_models(sequences@), limit),
{
    let mut specs: Vec<ReductionSpec> = Vec::new();
    assert(spec_models(specs@) =~= Seq::<SpecModel>::empty());
    let ghost models = sequence_models(sequences@);
    let ghost part = sequence_replace_part(prefix@, models);
    let n: usize = limited(sequences.len(), limit);
    let mut s: usize = 0;
    while s < n
        invariant
            s <= n <= sequences@.len(),
            models == sequence_models(sequences@),
            part == sequence_replace_part(prefix@, models),
            spec_models(specs@) == flat(s as nat, part),
        decreases n - s,
    {
        let ghost listed = spec_models(specs@);
        assert(models[s as int] == sequences@[s as int]@);
        match sequence_region(prefix.len(), &sequences[s]) {
            Some(region) => {
                let len: usize = sequences[s].items.len();
                let ghost targets = replace_targets(prefix@, models[s as int]);
                let mut target: usize = 1;
                assert(listed + flat(0, targets) =~= listed);
                while target < len
                    invariant
                        s < sequences@.len(),
                        models[s as int] == sequences@[s as int]@,
                        len == models[s as int].items.len(),
                        region_spec(prefix@.len() as int, models[s as int]) == Some(region),
                        1 <= target,
                        len > 0,
                        target <= len,
                        targets == replace_targets(prefix@, models[s as int]),
                        spec_models(specs@) == listed + flat((target - 1) as nat, targets),
                    decreases len - target,
                {
                    let ghost sofar = spec_models(specs@);
                    push_replacements(&mut specs, prefix, &sequences[s], &region, target);
                    target += 1;
                    assert(targets(target - 2) == flat(
                        sources_spec(prefix@, models[s as int].items, target - 1).len(),
                        replace_sources(prefix@, models[s as int], target - 1),
                    ));
                    assert(sofar + targets(target - 2) =~= listed + flat(
                        (target - 1) as nat,
                        targets,
                    ));
                }
                if len < 2 {
                    assert(listed + part(s as int) =~= listed);
                }
            },
            None => {
                assert(listed + part(s as int) =~= listed);
            },
        }
        s += 1;
    }
    specs
}

} // verus!
