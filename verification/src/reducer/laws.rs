//! Laws of the reductions of a byte path: each of them fits the path and makes it simpler, and
//! what the simplest ones reach.

use super::bytes::{
    all_zero, block_delete_list, block_delete_starts, block_delete_widths, block_len,
    block_zero_list, block_zero_starts, block_zero_widths, byte_ints, byte_lower_list,
    byte_lower_part, byte_lower_targets, dictionary_list, dictionary_starts, dictionary_values,
    draw_delete_list, draw_delete_single, draw_delete_window, draw_delete_windows, drawn_start,
    nonzero, repeated_value_list, repeated_value_part, repeated_values, simpler, tail_trim_list,
    tail_trim_part, word_lower_list, word_lower_starts, word_lower_targets, word_lower_widths,
    word_starts_spec, word_widths,
};
use super::ranking::{at_most, flat, pressure_sum, range_weight_spec};
use super::scalars::{
    deltas_of, group_part, group_targets, least_rank, lowered_writes, members, more_deltas, rank_of,
    rank_write, rank_writes, scalar_group_list, scalar_lower_list, scalar_lower_part,
    scalar_lower_targets, usable, valid_scalar_spec, ScalarRank,
};
use super::sequences::{
    chosen, delete_counts, delete_runs, run_end, sequence_delete_list, sequence_delete_part,
};
use super::state::{
    after_feedback, best_operation, counted_operations, first_operation, has_next, pressed_range,
    priority, reset_reducer, sorted_operation, BestModel, Feedback, OperationModel, ReducerModel,
};
use crate::candidate::OriginModel;
use crate::mutation::{
    deleted_ranges_close_up, lemma_le_bytes, mutated, spliced, zeroed_bytes_are_zero, MutationModel,
    ScalarRankWrite,
};
use crate::order::{sorted_by, sorting_keeps_items};
use crate::reduction::{delete_range_op, set_byte_op, SpecModel};
use crate::targets::{
    block_starts_spec, kept_once, kept_once_is_bounded, le_round_trips, le_value,
    lemma_kept_once_keeps, lemma_le_value_bound, less_by, pow256, shrink_sizes_including_full_spec,
    shrink_sizes_spec, smaller_byte_targets_spec, smaller_word_targets_spec, steps,
};
use crate::trace::{DrawSpan, ScalarSpan, SequenceModel};
use crate::weights::WeightsModel;
use vstd::prelude::*;

verus! {

/// An item of the parts is an item of one of them.
proof fn lemma_flat_item<T>(n: nat, part: spec_fn(int) -> Seq<T>, item: T)
    requires
        flat(n, part).contains(item),
    ensures
        exists|i: int| 0 <= i < n && (#[trigger] part(i)).contains(item),
    decreases n,
{
    if n > 0 {
        let before = flat((n - 1) as nat, part);
        let k = choose|k: int| 0 <= k < flat(n, part).len() && flat(n, part)[k] == item;
        if k < before.len() {
            assert(before[k] == item);
            lemma_flat_item((n - 1) as nat, part, item);
        } else {
            assert(part(n - 1)[k - before.len()] == item);
        }
    }
}

/// An item of one of the parts is an item of all of them.
proof fn lemma_flat_has<T>(n: nat, part: spec_fn(int) -> Seq<T>, i: int, item: T)
    requires
        0 <= i < n,
        part(i).contains(item),
    ensures
        flat(n, part).contains(item),
    decreases n,
{
    let before = flat((n - 1) as nat, part);
    if i < n - 1 {
        lemma_flat_has((n - 1) as nat, part, i, item);
        let k = choose|k: int| 0 <= k < before.len() && before[k] == item;
        assert(flat(n, part)[k] == item);
    } else {
        let own = part(i);
        let k = choose|k: int| 0 <= k < own.len() && own[k] == item;
        assert(flat(n, part)[before.len() + k] == item);
    }
}

/// The path after the reduction, where it fits.
pub open spec fn reduced(spec: SpecModel, prefix: Seq<u8>, dictionary: Seq<Seq<u8>>) -> Option<
    Seq<u8>,
> {
    mutated(spec.op.mutation, prefix, dictionary)
}

/// A range of the path is taken out; only the first byte may be lowered besides.
pub open spec fn takes_out(prefix: Seq<u8>, start: int, len: int, after: Seq<u8>) -> bool {
    &&& 0 <= start
    &&& 0 < len
    &&& after.len() + len == prefix.len()
    &&& forall|i: int|
        0 < i < after.len() ==> #[trigger] after[i] == prefix[if i < start {
            i
        } else {
            i + len
        }]
    &&& after.len() > 0 ==> after[0] <= prefix[if start == 0 {
        len
    } else {
        0
    }]
}

proof fn lemma_deletes(
    prefix: Seq<u8>,
    start: usize,
    len: usize,
    dictionary: Seq<Seq<u8>>,
)
    requires
        0 < len,
        start + len <= prefix.len(),
    ensures
        mutated(delete_range_op(start, len, true).mutation, prefix, dictionary) matches Some(after)
            && takes_out(prefix, start as int, len as int, after),
{
    deleted_ranges_close_up(
        start,
        len,
        crate::mutation::FirstByteAdjustment::ByDeletedLen,
        prefix,
        dictionary,
    );
}

/// A reduction of the tail takes bytes off the end of the path.
pub proof fn tail_trims_shorten(prefix: Seq<u8>, spec: SpecModel, dictionary: Seq<Seq<u8>>)
    requires
        prefix.len() <= usize::MAX,
        tail_trim_list(prefix.len() as int).contains(spec),
    ensures
        reduced(spec, prefix, dictionary) matches Some(after) && takes_out(
            prefix,
            after.len() as int,
            prefix.len() - after.len(),
            after,
        ),
{
    let len = prefix.len() as int;
    let sizes = shrink_sizes_including_full_spec(len);
    lemma_flat_item(sizes.len(), tail_trim_part(len), spec);
    let i = choose|i: int|
        0 <= i < sizes.len() && (#[trigger] tail_trim_part(len)(i)).contains(spec);
    lemma_sizes(len, i);
    lemma_deletes(prefix, less_by(len, sizes[i]) as usize, sizes[i] as usize, dictionary);
}

/// The sizes lie between one and the length.
proof fn lemma_sizes(len: int, i: int)
    requires
        0 < len,
        0 <= i < shrink_sizes_including_full_spec(len).len(),
    ensures
        1 <= shrink_sizes_including_full_spec(len)[i] <= len,
{
    kept_once_is_bounded(
        seq![len / 2, len / 4, len / 8, 1024, 512, 256, 128, 64, 32, 16, 8, 4, 3, 2, 1],
        1,
        len,
        -1,
    );
    if i > 0 {
        assert(shrink_sizes_including_full_spec(len)[i] == shrink_sizes_spec(len)[i - 1]);
    }
}

/// The tail can be taken off whole, in halves, and by one byte.
pub proof fn tails_come_off_whole_and_by_one(prefix: Seq<u8>, dictionary: Seq<Seq<u8>>, cut: int)
    requires
        0 < prefix.len() <= usize::MAX,
        cut == prefix.len() || cut == prefix.len() / 2 && prefix.len() > 1 || cut == 1,
    ensures
        exists|spec: SpecModel|
            #[trigger] tail_trim_list(prefix.len() as int).contains(spec) && (reduced(
                spec,
                prefix,
                dictionary,
            ) matches Some(after) && after.len() == prefix.len() - cut),
{
    let len = prefix.len() as int;
    let sizes = shrink_sizes_including_full_spec(len);
    let base = seq![len / 2, len / 4, len / 8, 1024, 512, 256, 128, 64, 32, 16, 8, 4, 3, 2, 1];
    assert(sizes.contains(cut)) by {
        if cut == len {
            assert(sizes[0] == len);
        } else {
            if cut == len / 2 {
                assert(base[0] == cut);
                lemma_kept_once_keeps(base, 1, len, -1, 0);
            } else {
                assert(base[14] == 1);
                lemma_kept_once_keeps(base, 1, len, -1, 14);
            }
            let k = choose|k: int|
                0 <= k < shrink_sizes_spec(len).len() && shrink_sizes_spec(len)[k] == cut;
            assert(sizes[k + 1] == cut);
        }
    }
    let i = choose|i: int| 0 <= i < sizes.len() && sizes[i] == cut;
    let spec = SpecModel { op: delete_range_op((len - cut) as usize, cut as usize, true), bias: 0 };
    assert(tail_trim_part(len)(i)[0] == spec);
    lemma_flat_has(sizes.len(), tail_trim_part(len), i, spec);
    lemma_deletes(prefix, (len - cut) as usize, cut as usize, dictionary);
    assert(tail_trim_list(len).contains(spec));
}

/// A reduction of a byte sets one byte to a smaller value.
pub proof fn byte_reductions_lower_a_byte(
    prefix: Seq<u8>,
    spec: SpecModel,
    dictionary: Seq<Seq<u8>>,
)
    requires
        prefix.len() <= usize::MAX,
        byte_lower_list(prefix).contains(spec),
    ensures
        reduced(spec, prefix, dictionary) matches Some(after) && after.len() == prefix.len()
            && exists|i: int|
            0 <= i < prefix.len() && #[trigger] after[i] < prefix[i] && after == prefix.update(
                i,
                after[i],
            ),
{
    lemma_flat_item(prefix.len(), byte_lower_part(prefix), spec);
    let i = choose|i: int|
        0 <= i < prefix.len() && (#[trigger] byte_lower_part(prefix)(i)).contains(spec);
    let targets = smaller_byte_targets_spec(prefix[i] as int);
    lemma_flat_item(targets.len(), byte_lower_targets(prefix, i), spec);
    let t = choose|t: int|
        0 <= t < targets.len() && (#[trigger] byte_lower_targets(prefix, i)(t)).contains(spec);
    let byte = prefix[i] as int;
    kept_once_is_bounded(
        seq![
            0,
            1,
            2,
            3,
            4,
            8,
            16,
            32,
            64,
            128,
            byte / 2,
            less_by(byte, 1),
            less_by(byte, 2),
            less_by(byte, 4),
            less_by(byte, 8),
            less_by(byte, 16),
        ],
        0,
        byte,
        -1,
    );
    let after = reduced(spec, prefix, dictionary).unwrap();
    assert(0 <= targets[t] < byte);
    assert(after[i] < prefix[i]);
    assert(after == prefix.update(i, after[i]));
}

/// Every byte that is not zero can be zeroed, halved, and lowered by one.
pub proof fn bytes_can_be_zeroed(prefix: Seq<u8>, i: int, value: u8, dictionary: Seq<Seq<u8>>)
    requires
        prefix.len() <= usize::MAX,
        0 <= i < prefix.len(),
        prefix[i] > 0,
        value == 0 || value == prefix[i] / 2 || value == prefix[i] - 1,
    ensures
        exists|spec: SpecModel|
            #[trigger] byte_lower_list(prefix).contains(spec) && reduced(spec, prefix, dictionary)
                == Some(prefix.update(i, value)),
{
    let byte = prefix[i] as int;
    let base = seq![
        0,
        1,
        2,
        3,
        4,
        8,
        16,
        32,
        64,
        128,
        byte / 2,
        less_by(byte, 1),
        less_by(byte, 2),
        less_by(byte, 4),
        less_by(byte, 8),
        less_by(byte, 16),
    ];
    let place: int = if value == 0 {
        0
    } else if value == prefix[i] / 2 {
        10
    } else {
        11
    };
    assert(base[place] == value);
    lemma_kept_once_keeps(base, 0, byte, -1, place);
    let targets = smaller_byte_targets_spec(byte);
    assert(targets.contains(value as int));
    let t = choose|t: int| 0 <= t < targets.len() && targets[t] == value as int;
    let spec = SpecModel { op: set_byte_op(i as usize, value), bias: 0 };
    assert(byte_lower_targets(prefix, i)(t)[0] == spec);
    lemma_flat_has(targets.len(), byte_lower_targets(prefix, i), t, spec);
    assert(byte_lower_part(prefix)(i).contains(spec));
    lemma_flat_has(prefix.len(), byte_lower_part(prefix), i, spec);
    assert(byte_lower_list(prefix).contains(spec));
}

/// The steps lie from the start to below the end.
proof fn lemma_steps(start: int, width: int, len: int, k: int)
    requires
        0 <= k < steps(start, width, len).len(),
    ensures
        start <= steps(start, width, len)[k] < len,
    decreases less_by(len, start),
{
    if k > 0 {
        lemma_steps(start + width, width, len, k - 1);
    }
}

/// A block starts inside the path and ends inside it.
proof fn lemma_blocks(len: int, width: int, b: int)
    requires
        0 < width,
        0 < len,
        0 <= b < block_starts_spec(len, width).len(),
    ensures
        0 <= block_starts_spec(len, width)[b] < len,
        0 < block_len(block_starts_spec(len, width)[b], width, len),
        block_starts_spec(len, width)[b] + block_len(block_starts_spec(len, width)[b], width, len)
            <= len,
{
    kept_once_is_bounded(
        steps(0, width, len) + (if width > 1 {
            steps(width / 2, width, len)
        } else {
            Seq::empty()
        }) + seq![1, len / 2, less_by(len, width)],
        0,
        len,
        -1,
    );
}

/// A reduction that deletes a block takes bytes out of the path and leaves some.
pub proof fn deleted_blocks_shorten(prefix: Seq<u8>, spec: SpecModel, dictionary: Seq<Seq<u8>>)
    requires
        prefix.len() <= usize::MAX,
        block_delete_list(prefix.len() as int).contains(spec),
    ensures
        reduced(spec, prefix, dictionary) matches Some(after) && after.len() > 0 && takes_out(
            prefix,
            spec.op.start as int,
            spec.op.len as int,
            after,
        ),
{
    let total = prefix.len() as int;
    let widths = shrink_sizes_spec(total);
    lemma_flat_item(widths.len(), block_delete_widths(total), spec);
    let w = choose|w: int|
        0 <= w < widths.len() && (#[trigger] block_delete_widths(total)(w)).contains(spec);
    let width = widths[w];
    kept_once_is_bounded(
        seq![total / 2, total / 4, total / 8, 1024, 512, 256, 128, 64, 32, 16, 8, 4, 3, 2, 1],
        1,
        total,
        -1,
    );
    let starts = block_starts_spec(total, width);
    lemma_flat_item(starts.len(), block_delete_starts(total, width), spec);
    let b = choose|b: int|
        0 <= b < starts.len() && (#[trigger] block_delete_starts(total, width)(b)).contains(spec);
    lemma_blocks(total, width, b);
    lemma_deletes(
        prefix,
        starts[b] as usize,
        block_len(starts[b], width, total) as usize,
        dictionary,
    );
}

/// More bytes are zero where some of a path's bytes are zeroed.
proof fn lemma_nonzero_drops(before: Seq<u8>, after: Seq<u8>, k: int)
    requires
        before.len() == after.len(),
        forall|i: int| 0 <= i < before.len() ==> #[trigger] after[i] == before[i] || after[i] == 0,
    ensures
        nonzero(after) <= nonzero(before),
        0 <= k < before.len() && before[k] != 0 && after[k] == 0 ==> nonzero(after) < nonzero(
            before,
        ),
    decreases before.len(),
{
    if before.len() > 0 {
        assert forall|i: int| 0 <= i < before.drop_last().len() implies #[trigger] after.drop_last()[i]
            == before.drop_last()[i] || after.drop_last()[i] == 0 by {
            assert(after[i] == before[i] || after[i] == 0);
        }
        lemma_nonzero_drops(before.drop_last(), after.drop_last(), k);
        assert(after[before.len() - 1] == before[before.len() - 1] || after[before.len() - 1] == 0);
    }
}

/// A reduction that zeroes a block leaves fewer bytes that are not zero, and changes no other.
pub proof fn zeroed_blocks_leave_fewer_bytes(
    prefix: Seq<u8>,
    spec: SpecModel,
    dictionary: Seq<Seq<u8>>,
)
    requires
        prefix.len() <= usize::MAX,
        block_zero_list(prefix).contains(spec),
    ensures
        reduced(spec, prefix, dictionary) matches Some(after) && after.len() == prefix.len()
            && nonzero(after) < nonzero(prefix) && forall|i: int|
            0 <= i < prefix.len() ==> #[trigger] after[i] == prefix[i] || after[i] == 0,
{
    let total = prefix.len() as int;
    let widths = shrink_sizes_including_full_spec(total);
    lemma_flat_item(widths.len(), block_zero_widths(prefix), spec);
    let w = choose|w: int|
        0 <= w < widths.len() && (#[trigger] block_zero_widths(prefix)(w)).contains(spec);
    let width = widths[w];
    lemma_sizes(total, w);
    let starts = block_starts_spec(total, width);
    lemma_flat_item(starts.len(), block_zero_starts(prefix, width), spec);
    let b = choose|b: int|
        0 <= b < starts.len() && (#[trigger] block_zero_starts(prefix, width)(b)).contains(spec);
    lemma_blocks(total, width, b);
    let start = starts[b];
    let len = block_len(start, width, total);
    zeroed_bytes_are_zero(start as usize, len as usize, 0, prefix, dictionary);
    let after = reduced(spec, prefix, dictionary).unwrap();
    let k = choose|k: int| start <= k < start + len && #[trigger] prefix[k] != 0;
    lemma_nonzero_drops(prefix, after, k);
}

/// A reduction that deletes draws takes out bytes behind the first one.
pub proof fn deleted_draws_shorten(
    prefix: Seq<u8>,
    draws: Seq<DrawSpan>,
    limit: usize,
    spec: SpecModel,
    dictionary: Seq<Seq<u8>>,
)
    requires
        prefix.len() <= usize::MAX,
        draw_delete_list(prefix.len() as int, draws, limit).contains(spec),
    ensures
        0 < spec.op.start,
        reduced(spec, prefix, dictionary) matches Some(after) && takes_out(
            prefix,
            spec.op.start as int,
            spec.op.len as int,
            after,
        ),
        exists|first: DrawSpan, last: DrawSpan|
            #![trigger draws.contains(first), draws.contains(last)]
            {
                &&& draws.contains(first)
                &&& draws.contains(last)
                &&& spec.op.start == first.start
                &&& spec.op.start + spec.op.len == last.end
            },
{
    let total = prefix.len() as int;
    let singles = flat(at_most(draws.len(), limit), draw_delete_single(total, draws));
    let runs = flat(6, draw_delete_windows(total, draws));
    let k = choose|k: int| 0 <= k < (singles + runs).len() && (singles + runs)[k] == spec;
    if k < singles.len() {
        assert(singles[k] == spec);
        assert(singles.contains(spec));
        let n = at_most(draws.len(), limit);
        lemma_flat_item(n, draw_delete_single(total, draws), spec);
        let i = choose|i: int|
            0 <= i < n && (#[trigger] draw_delete_single(total, draws)(i)).contains(spec);
        let draw = draws[draws.len() - 1 - i];
        assert(draws.contains(draw));
        lemma_deletes(prefix, draw.start, (draw.end - draw.start) as usize, dictionary);
    } else {
        assert(runs[k - singles.len()] == spec);
        assert(runs.contains(spec));
        lemma_flat_item(6, draw_delete_windows(total, draws), spec);
        let w = choose|w: int|
            0 <= w < 6 && (#[trigger] draw_delete_windows(total, draws)(w)).contains(spec);
        let window = super::bytes::draw_windows()[w];
        let part = draw_delete_window(total, draws, window);
        let n = (draws.len() - window + 1) as nat;
        lemma_flat_item(n, part, spec);
        let i = choose|i: int| 0 <= i < n && (#[trigger] part(i)).contains(spec);
        let first = draws[draws.len() - window - i];
        let last = draws[draws.len() - 1 - i];
        assert(draws.contains(first));
        assert(draws.contains(last));
        lemma_deletes(prefix, first.start, (last.end - first.start) as usize, dictionary);
    }
}

/// A reduction of a word writes a smaller word in its place, and changes no byte besides.
pub proof fn word_reductions_lower_a_word(
    prefix: Seq<u8>,
    draws: Seq<DrawSpan>,
    limit: usize,
    spec: SpecModel,
    dictionary: Seq<Seq<u8>>,
)
    requires
        prefix.len() <= usize::MAX,
        word_lower_list(prefix, draws, limit).contains(spec),
    ensures
        ({
            let start = spec.op.start as int;
            let end = spec.op.start + spec.op.len;
            &&& end <= prefix.len()
            &&& reduced(spec, prefix, dictionary) matches Some(after) && after.len() == prefix.len()
                && le_value(after.subrange(start, end)) < le_value(prefix.subrange(start, end))
                && forall|i: int|
                0 <= i < prefix.len() && !(start <= i < end) ==> #[trigger] after[i] == prefix[i]
        }),
{
    let total = prefix.len() as int;
    lemma_flat_item(3, word_lower_widths(prefix, draws, limit), spec);
    let w = choose|w: int|
        0 <= w < 3 && (#[trigger] word_lower_widths(prefix, draws, limit)(w)).contains(spec);
    let width = word_widths()[w];
    let starts = word_starts_spec(total, draws, limit, width);
    lemma_flat_item(starts.len(), word_lower_starts(prefix, draws, limit, width), spec);
    let s = choose|s: int|
        0 <= s < starts.len() && (#[trigger] word_lower_starts(
            prefix,
            draws,
            limit,
            width,
        )(s)).contains(spec);
    let start = starts[s];
    kept_once_is_bounded(
        flat(at_most(draws.len(), limit), drawn_start(total, draws, width)) + steps(
            0,
            width,
            total - width + 1,
        ),
        0,
        total - width + 1,
        -1,
    );
    let word = le_value(prefix.subrange(start, start + width));
    let targets = smaller_word_targets_spec(word, width as usize);
    lemma_flat_item(targets.len(), word_lower_targets(prefix, start, width), spec);
    let t = choose|t: int|
        0 <= t < targets.len() && (#[trigger] word_lower_targets(
            prefix,
            start,
            width,
        )(t)).contains(spec);
    lemma_smaller_words(word, width as usize, t);
    lemma_le_value_bound(prefix.subrange(start, start + width));
    crate::targets::lemma_pow256();
    crate::targets::lemma_pow256_grows(width as nat, 8);
    let target = targets[t];
    le_round_trips(target, width as nat);
    lemma_le_bytes(target, width as nat);
    let after = reduced(spec, prefix, dictionary).unwrap();
    assert(after.subrange(start, start + width) =~= crate::mutation::le_bytes(target, width as nat));
}

/// The words that are tried are smaller.
proof fn lemma_smaller_words(word: int, width: usize, t: int)
    requires
        0 <= t < smaller_word_targets_spec(word, width).len(),
    ensures
        0 <= smaller_word_targets_spec(word, width)[t] < word,
{
    let max = crate::targets::max_word_value_spec(width) as int;
    kept_once_is_bounded(
        crate::targets::counting(33) + seq![
            63,
            64,
            127,
            128,
            255,
            256,
            511,
            512,
            1023,
            1024,
            word / 2,
            word / 4,
            less_by(word, 1),
            less_by(word, 2),
            less_by(word, 4),
            less_by(word, 8),
            less_by(word, 16),
            less_by(word, 32),
            less_by(word, 64),
        ],
        0,
        if word <= max {
            word
        } else {
            max + 1
        },
        -1,
    );
}

/// A reduction by a dictionary value puts the value where something less simple stood: with fewer
/// bytes that are not zero, or with as many and a larger first byte that differs.
pub proof fn dictionary_reductions_simplify(
    prefix: Seq<u8>,
    dictionary: Seq<Seq<u8>>,
    spec: SpecModel,
)
    requires
        prefix.len() <= usize::MAX,
        dictionary.len() <= usize::MAX,
        dictionary_list(prefix, dictionary).contains(spec),
    ensures
        ({
            let start = spec.op.start as int;
            let end = spec.op.start + spec.op.len;
            &&& 0 <= start < end <= prefix.len()
            &&& reduced(spec, prefix, dictionary) matches Some(after) && after.len() == prefix.len()
                && dictionary.contains(after.subrange(start, end)) && simpler(
                after.subrange(start, end),
                prefix.subrange(start, end),
            ) && forall|i: int|
                0 <= i < prefix.len() && !(start <= i < end) ==> #[trigger] after[i] == prefix[i]
        }),
{
    lemma_flat_item(dictionary.len(), dictionary_values(prefix, dictionary), spec);
    let d = choose|d: int|
        0 <= d < dictionary.len() && (#[trigger] dictionary_values(
            prefix,
            dictionary,
        )(d)).contains(spec);
    let value = dictionary[d];
    let n = (prefix.len() - value.len() + 1) as nat;
    lemma_flat_item(n, dictionary_starts(prefix, value, d), spec);
    let start = choose|start: int|
        0 <= start < n && (#[trigger] dictionary_starts(prefix, value, d)(start)).contains(spec);
    let after = reduced(spec, prefix, dictionary).unwrap();
    assert(after.subrange(start, start + value.len()) =~= value);
}

/// A reduction of a repeated value clears a value that occurs, wherever it occurs.
pub proof fn repeated_values_are_cleared(
    prefix: Seq<u8>,
    spec: SpecModel,
    dictionary: Seq<Seq<u8>>,
)
    requires
        prefix.len() <= usize::MAX,
        repeated_value_list(prefix).contains(spec),
    ensures
        reduced(spec, prefix, dictionary) matches Some(after) && after.len() == prefix.len()
            && nonzero(after) < nonzero(prefix) && exists|value: u8|
            {
                &&& value != 0
                &&& #[trigger] prefix.contains(value)
                &&& forall|i: int|
                    0 <= i < prefix.len() ==> #[trigger] after[i] == if prefix[i] == value {
                        0
                    } else {
                        prefix[i]
                    }
            },
{
    let values = repeated_values(prefix);
    lemma_flat_item(values.len(), repeated_value_part(prefix), spec);
    let i = choose|i: int|
        0 <= i < values.len() && (#[trigger] repeated_value_part(prefix)(i)).contains(spec);
    lemma_repeated(prefix, i);
    let value = values[i] as u8;
    zeroed_bytes_are_zero(0, 0, value, prefix, dictionary);
    let k = choose|k: int| 0 <= k < prefix.len() && prefix[k] == value;
    let after = reduced(spec, prefix, dictionary).unwrap();
    assert forall|i: int| 0 <= i < prefix.len() implies #[trigger] after[i] == prefix[i] || after[i]
        == 0 by {}
    lemma_nonzero_drops(prefix, after, k);
}

/// A listed value is a byte of the path that is not zero.
proof fn lemma_repeated(prefix: Seq<u8>, i: int)
    requires
        0 <= i < repeated_values(prefix).len(),
    ensures
        1 <= repeated_values(prefix)[i] < 256,
        prefix.contains(repeated_values(prefix)[i] as u8),
{
    let kept = kept_once(byte_ints(prefix), 1, 256, -1);
    let keys = super::bytes::occurrence_keys(prefix);
    sorting_keeps_items(kept, keys);
    let value = repeated_values(prefix)[i];
    assert(kept.to_multiset().contains(value)) by {
        broadcast use vstd::seq_lib::group_to_multiset_ensures;

        assert(repeated_values(prefix).to_multiset().contains(value)) by {
            assert(repeated_values(prefix).contains(value));
        }
    }
    assert(kept.contains(value)) by {
        broadcast use vstd::seq_lib::group_to_multiset_ensures;

    }
    let k = choose|k: int| 0 <= k < kept.len() && kept[k] == value;
    kept_once_is_bounded(byte_ints(prefix), 1, 256, -1);
    lemma_kept_occurs(byte_ints(prefix), 1, 256, -1, k);
    let j = choose|j: int| 0 <= j < byte_ints(prefix).len() && byte_ints(prefix)[j] == value;
    assert(prefix[j] == value as u8);
}

/// What is kept was a candidate.
proof fn lemma_kept_occurs(candidates: Seq<int>, lowest: int, limit: int, except: int, k: int)
    requires
        0 <= k < kept_once(candidates, lowest, limit, except).len(),
    ensures
        candidates.contains(kept_once(candidates, lowest, limit, except)[k]),
    decreases candidates.len(),
{
    if candidates.len() > 0 {
        let kept = kept_once(candidates.drop_last(), lowest, limit, except);
        let all = kept_once(candidates, lowest, limit, except);
        if k < kept.len() {
            assert(all[k] == kept[k]);
            lemma_kept_occurs(candidates.drop_last(), lowest, limit, except, k);
            let j = choose|j: int|
                0 <= j < candidates.drop_last().len() && candidates.drop_last()[j] == kept[k];
            assert(candidates[j] == kept[k]);
        } else {
            assert(candidates[candidates.len() - 1] == all[k]);
        }
    }
}

/// Writing a number in place of as many bytes as it needs sets these bytes to the number and
/// keeps the others.
proof fn lemma_written_number(prefix: Seq<u8>, start: int, width: nat, value: int)
    requires
        0 <= start,
        start + width <= prefix.len(),
        0 <= value < pow256(width),
    ensures
        ({
            let after = spliced(
                prefix,
                start,
                width as int,
                crate::mutation::le_bytes(value, width),
            );
            &&& after.len() == prefix.len()
            &&& le_value(after.subrange(start, start + width)) == value
            &&& forall|i: int|
                0 <= i < prefix.len() && !(start <= i < start + width) ==> #[trigger] after[i]
                    == prefix[i]
        }),
{
    lemma_le_bytes(value, width);
    le_round_trips(value, width);
    let bytes = crate::mutation::le_bytes(value, width);
    let after = spliced(prefix, start, width as int, bytes);
    assert(after.subrange(start, start + width) =~= bytes);
}

/// A reduction of a scalar gives it another rank, one that the scalar can have, and changes no
/// byte outside it.
pub proof fn scalar_reductions_change_a_rank(
    prefix: Seq<u8>,
    scalars: Seq<ScalarSpan>,
    limit: usize,
    spec: SpecModel,
    dictionary: Seq<Seq<u8>>,
)
    requires
        prefix.len() <= usize::MAX,
        scalar_lower_list(prefix, scalars, limit).contains(spec),
    ensures
        exists|scalar: ScalarSpan|
            {
                &&& #[trigger] scalars.contains(scalar)
                &&& scalar.start < scalar.end <= prefix.len()
                &&& reduced(spec, prefix, dictionary) matches Some(after) && after.len()
                    == prefix.len() && rank_of(after, scalar) != rank_of(prefix, scalar) && (
                scalar.span != 0 ==> le_value(
                    after.subrange(scalar.start as int, scalar.end as int),
                ) < scalar.span) && forall|i: int|
                    0 <= i < prefix.len() && !(scalar.start <= i < scalar.end)
                        ==> #[trigger] after[i] == prefix[i]
            },
{
    let n = at_most(scalars.len(), limit);
    lemma_flat_item(n, scalar_lower_part(prefix, scalars), spec);
    let i = choose|i: int|
        0 <= i < n && (#[trigger] scalar_lower_part(prefix, scalars)(i)).contains(spec);
    let scalar = scalars[i];
    assert(scalars.contains(scalar));
    let current = rank_of(prefix, scalar);
    let targets = crate::targets::scalar_targets_spec(scalar, current);
    lemma_flat_item(targets.len(), scalar_lower_targets(prefix, scalar), spec);
    let t = choose|t: int|
        0 <= t < targets.len() && (#[trigger] scalar_lower_targets(prefix, scalar)(t)).contains(
            spec,
        );
    kept_once_is_bounded(
        crate::targets::scalar_base() + seq![current / 2, current / 4, less_by(current, 1)],
        0,
        crate::targets::rank_limit(scalar),
        current,
    );
    let target = targets[t];
    lemma_rank_written(prefix, scalar, target);
    lemma_one_write(prefix, rank_write(scalar, target), dictionary);
    let after = reduced(spec, prefix, dictionary).unwrap();
    assert(after == spliced(
        prefix,
        scalar.start as int,
        scalar.end - scalar.start,
        crate::mutation::le_bytes(target, (scalar.end - scalar.start) as nat),
    ));
}

/// One write is one number in place of as many bytes.
proof fn lemma_one_write(prefix: Seq<u8>, write: ScalarRankWrite, dictionary: Seq<Seq<u8>>)
    requires
        0 < write.width <= 16,
        write.start + write.width <= prefix.len(),
    ensures
        mutated(MutationModel::SetScalarRanks { writes: seq![write] }, prefix, dictionary) == Some(
            spliced(
                prefix,
                write.start as int,
                write.width as int,
                crate::mutation::le_bytes(write.value as int, write.width as nat),
            ),
        ),
{
    reveal_with_fuel(crate::mutation::written, 2);
    let writes = seq![write];
    assert(writes.drop_last() =~= Seq::empty());
    assert(crate::mutation::writes_fit(writes, prefix.len() as int));
}

/// A scalar that a rank was written to has that rank.
proof fn lemma_rank_written(prefix: Seq<u8>, scalar: ScalarSpan, rank: int)
    requires
        valid_scalar_spec(prefix.len() as int, scalar),
        0 <= rank < crate::targets::rank_limit(scalar),
    ensures
        ({
            let width = (scalar.end - scalar.start) as nat;
            let after = spliced(
                prefix,
                scalar.start as int,
                width as int,
                crate::mutation::le_bytes(rank, width),
            );
            &&& rank as u128 == rank
            &&& after.len() == prefix.len()
            &&& rank_of(after, scalar) == rank
            &&& le_value(after.subrange(scalar.start as int, scalar.end as int)) == rank
            &&& forall|i: int|
                0 <= i < prefix.len() && !(scalar.start <= i < scalar.end) ==> #[trigger] after[i]
                    == prefix[i]
        }),
{
    let width = (scalar.end - scalar.start) as nat;
    crate::targets::lemma_pow256();
    assert(crate::targets::rank_limit(scalar) <= pow256(width)) by {
        if width == 16 {
        }
    }
    crate::targets::lemma_pow256_grows(width, 16);
    lemma_written_number(prefix, scalar.start as int, width, rank);
    if scalar.span != 0 {
        vstd::arithmetic::div_mod::lemma_small_mod(rank as nat, scalar.span as nat);
    }
}

/// Every scalar that has a rank above zero can be given the rank zero, and the rank below its own.
pub proof fn scalars_can_be_zeroed(
    prefix: Seq<u8>,
    scalars: Seq<ScalarSpan>,
    limit: usize,
    i: int,
    rank: int,
    dictionary: Seq<Seq<u8>>,
)
    requires
        prefix.len() <= usize::MAX,
        0 <= i < scalars.len(),
        i < limit,
        valid_scalar_spec(prefix.len() as int, scalars[i]),
        rank_of(prefix, scalars[i]) > 0,
        rank == 0 || rank == rank_of(prefix, scalars[i]) - 1,
    ensures
        exists|spec: SpecModel|
            #[trigger] scalar_lower_list(prefix, scalars, limit).contains(spec) && (reduced(
                spec,
                prefix,
                dictionary,
            ) matches Some(after) && rank_of(after, scalars[i]) == rank),
{
    let scalar = scalars[i];
    let current = rank_of(prefix, scalar);
    let base = crate::targets::scalar_base();
    let all = base + seq![current / 2, current / 4, less_by(current, 1)];
    let limit_of = crate::targets::rank_limit(scalar);
    lemma_rank_bound(prefix, scalar);
    let place: int = if rank == 0 {
        0
    } else {
        base.len() as int + 2
    };
    assert(all[place] == rank);
    lemma_kept_once_keeps(all, 0, limit_of, current, place);
    let targets = crate::targets::scalar_targets_spec(scalar, current);
    assert(targets.contains(rank));
    let t = choose|t: int| 0 <= t < targets.len() && targets[t] == rank;
    let spec = scalar_lower_targets(prefix, scalar)(t)[0];
    assert(scalar_lower_targets(prefix, scalar)(t).contains(spec));
    lemma_flat_has(targets.len(), scalar_lower_targets(prefix, scalar), t, spec);
    assert(scalar_lower_part(prefix, scalars)(i).contains(spec));
    let n = at_most(scalars.len(), limit);
    lemma_flat_has(n, scalar_lower_part(prefix, scalars), i, spec);
    assert(scalar_lower_list(prefix, scalars, limit).contains(spec));
    lemma_rank_written(prefix, scalar, rank);
    lemma_one_write(prefix, rank_write(scalar, rank), dictionary);
    assert(reduced(spec, prefix, dictionary).unwrap() == spliced(
        prefix,
        scalar.start as int,
        scalar.end - scalar.start,
        crate::mutation::le_bytes(rank, (scalar.end - scalar.start) as nat),
    ));
}

/// The rank of a scalar is one that it can have.
proof fn lemma_rank_bound(prefix: Seq<u8>, scalar: ScalarSpan)
    requires
        valid_scalar_spec(prefix.len() as int, scalar),
    ensures
        0 <= rank_of(prefix, scalar) < crate::targets::rank_limit(scalar),
{
    let bytes = prefix.subrange(scalar.start as int, scalar.end as int);
    lemma_le_value_bound(bytes);
    crate::targets::lemma_pow256();
    crate::targets::lemma_pow256_grows(bytes.len(), 16);
    let raw = le_value(bytes);
    if scalar.span != 0 {
        assert(0 <= raw % (scalar.span as int) < scalar.span);
        assert(raw % (scalar.span as int) <= raw) by {
            vstd::arithmetic::div_mod::lemma_mod_decreases(raw as nat, scalar.span as nat);
        }
    }
}

/// A reduction of a group gives one rank to scalars that had one rank, every one of them.
pub proof fn group_reductions_give_one_rank(
    prefix: Seq<u8>,
    scalars: Seq<ScalarSpan>,
    pressure: Seq<u16>,
    limit: usize,
    spec: SpecModel,
)
    requires
        scalar_group_list(prefix, scalars, pressure, limit).contains(spec),
    ensures
        spec.op.mutation matches MutationModel::SetScalarRanks { writes } && writes.len() >= 2
            && forall|a: int, b: int|
            0 <= a < writes.len() && 0 <= b < writes.len() ==> (#[trigger] writes[a]).value == (
            #[trigger] writes[b]).value && writes[a].width == writes[b].width,
{
    let list = usable(prefix.len() as int, scalars, limit);
    lemma_flat_item(list.len(), group_part(prefix, list, pressure), spec);
    let i = choose|i: int|
        0 <= i < list.len() && (#[trigger] group_part(prefix, list, pressure)(i)).contains(spec);
    let current = rank_of(prefix, list[i]);
    let targets = crate::targets::scalar_group_targets_spec(list[i], current);
    lemma_flat_item(targets.len(), group_targets(prefix, list, i, pressure), spec);
    let t = choose|t: int|
        0 <= t < targets.len() && (#[trigger] group_targets(
            prefix,
            list,
            i,
            pressure,
        )(t)).contains(spec);
    let group = members(prefix, list, i);
    assert(spec.op.mutation == MutationModel::SetScalarRanks {
        writes: rank_writes(group, targets[t]),
    });
    assert forall|a: int| 0 <= a < group.len() implies crate::trace::span_len(
        (#[trigger] group[a]).start,
        group[a].end,
    ) == crate::trace::span_len(list[i].start, list[i].end) by {
        assert(group.contains(group[a]));
        let part = super::scalars::member_part(prefix, list, i);
        lemma_flat_item((list.len() - i) as nat, part, group[a]);
        let k = choose|k: int|
            0 <= k < list.len() - i && (#[trigger] part(k)).contains(group[a]);
        assert(part(k)[0] == group[a]);
    }
}

/// The amounts by which a cohort is lowered are above zero, and no rank of it is less.
pub proof fn offsets_keep_distances(cohort: Seq<ScalarRank>, d: int, a: int, b: int)
    requires
        0 <= d < deltas_of(cohort, cohort.len()).len(),
        0 <= a < cohort.len(),
        0 <= b < cohort.len(),
    ensures
        ({
            let delta = deltas_of(cohort, cohort.len())[d];
            let writes = lowered_writes(cohort, delta);
            &&& 0 < delta <= cohort[a].current
            &&& writes[a].value < cohort[a].current
            &&& writes[a].value - writes[b].value == cohort[a].current - cohort[b].current
            &&& writes[a].start == cohort[a].scalar.start
        }),
{
    lemma_deltas(cohort, cohort.len(), d);
    lemma_least(cohort, a);
    lemma_least(cohort, b);
}

proof fn lemma_least(cohort: Seq<ScalarRank>, k: int)
    requires
        0 <= k < cohort.len(),
    ensures
        least_rank(cohort) <= cohort[k].current,
    decreases cohort.len(),
{
    if k < cohort.len() - 1 {
        lemma_least(cohort.drop_last(), k);
    }
}

proof fn lemma_deltas(cohort: Seq<ScalarRank>, n: nat, d: int)
    requires
        0 <= d < deltas_of(cohort, n).len(),
    ensures
        0 < deltas_of(cohort, n)[d] <= least_rank(cohort),
    decreases n,
{
    if n > 0 {
        let known = deltas_of(cohort, (n - 1) as nat);
        assert forall|k: int| 0 <= k < known.len() implies 0 < #[trigger] known[k] <= least_rank(
            cohort,
        ) by {
            lemma_deltas(cohort, (n - 1) as nat, k);
        }
        let i = n - 1;
        let count = crate::targets::scalar_common_offset_targets_spec(
            cohort[i].scalar,
            cohort[i].current as int,
        ).len();
        lemma_more_deltas(cohort, i, count, known, d);
    }
}

proof fn lemma_more_deltas(cohort: Seq<ScalarRank>, i: int, n: nat, known: Seq<int>, d: int)
    requires
        forall|k: int| 0 <= k < known.len() ==> 0 < #[trigger] known[k] <= least_rank(cohort),
        0 <= d < more_deltas(cohort, i, n, known).len(),
    ensures
        0 < more_deltas(cohort, i, n, known)[d] <= least_rank(cohort),
    decreases n,
{
    if n > 0 {
        let rest = more_deltas(cohort, i, (n - 1) as nat, known);
        if d < rest.len() {
            lemma_more_deltas(cohort, i, (n - 1) as nat, known, d);
        }
    }
}

/// A reduction that deletes items of a sequence takes their bytes out and lowers the length of the
/// sequence by their number, where the length stands before them and can be written.
pub proof fn deleted_items_are_uncounted(
    prefix: Seq<u8>,
    sequences: Seq<SequenceModel>,
    limit: usize,
    spec: SpecModel,
    dictionary: Seq<Seq<u8>>,
)
    requires
        prefix.len() <= usize::MAX,
        forall|s: int|
            0 <= s < sequences.len() ==> (#[trigger] sequences[s]).items.len() <= usize::MAX,
        sequence_delete_list(prefix.len() as int, sequences, limit).contains(spec),
    ensures
        spec.op.tree,
        exists|sequence: SequenceModel, first: int, end: int|
            #![trigger sequences.contains(sequence), sequence.items[first], sequence.items[end]]
            {
                let length = sequence.length_start as int;
                let width = sequence.length_len as nat;
                let from = sequence.items[first].start as int;
                let to = sequence.items[end].end as int;
                &&& sequences.contains(sequence)
                &&& 0 <= first <= end < sequence.items.len()
                &&& 0 <= from < to <= prefix.len()
                &&& reduced(spec, prefix, dictionary) matches Some(after) && after.len()
                    == prefix.len() - (to - from) && (length + width <= from
                    && sequence.items.len() < pow256(width) ==> {
                    &&& le_value(after.subrange(length, length + width)) == sequence.items.len() - (
                    end - first + 1)
                    &&& after.subrange(from, after.len() as int) == prefix.subrange(
                        to,
                        prefix.len() as int,
                    )
                    &&& forall|i: int|
                        0 <= i < from && !(length <= i < length + width) ==> #[trigger] after[i]
                            == prefix[i]
                })
            },
{
    let total = prefix.len() as int;
    let n = at_most(sequences.len(), limit);
    lemma_flat_item(n, sequence_delete_part(total, sequences), spec);
    let s = choose|s: int|
        0 <= s < n && (#[trigger] sequence_delete_part(total, sequences)(s)).contains(spec);
    let sequence = sequences[s];
    assert(sequences.contains(sequence));
    let len = sequence.items.len() as int;
    let counts = shrink_sizes_including_full_spec(len);
    lemma_flat_item(counts.len(), delete_counts(total, sequence), spec);
    let c = choose|c: int|
        0 <= c < counts.len() && (#[trigger] delete_counts(total, sequence)(c)).contains(spec);
    lemma_sizes(len, c);
    let count = counts[c];
    let starts = block_starts_spec(len, count);
    lemma_flat_item(starts.len(), delete_runs(total, sequence, count), spec);
    let b = choose|b: int|
        0 <= b < starts.len() && (#[trigger] delete_runs(total, sequence, count)(b)).contains(spec);
    lemma_blocks(len, count, b);
    let start = starts[b];
    let end = run_end(start, count, len);
    let length = sequence.length_start as int;
    let width = sequence.length_len as nat;
    let from = sequence.items[start].start as int;
    let to = sequence.items[end - 1].end as int;
    let target = len - (end - start);
    let bytes = crate::mutation::le_bytes(target, width);
    lemma_le_bytes(target, width);
    let counted = spliced(prefix, length, width as int, bytes);
    let after = reduced(spec, prefix, dictionary).unwrap();
    assert(after == spliced(counted, from, to - from, Seq::empty()));
    if length + width <= from && len < pow256(width) {
        lemma_written_number(prefix, length, width, target);
        assert(after.subrange(length, length + width) =~= counted.subrange(length, length + width));
        assert(after.subrange(from, after.len() as int) =~= prefix.subrange(
            to,
            prefix.len() as int,
        ));
        assert forall|i: int| 0 <= i < from && !(length <= i < length + width) implies
        #[trigger] after[i] == prefix[i] by {
            assert(counted[i] == prefix[i]);
        }
    }
    assert(sequence.items[start].start as int == from);
    assert(sequence.items[end - 1].end as int == to);
}

/// No family that has something left to try is more promising than the one whose turn it is, and
/// one has its turn as long as any has something left.
pub proof fn the_most_promising_family_goes_first(
    states: Seq<OperationModel>,
    weights: WeightsModel,
    pressure: Seq<u16>,
    n: int,
    j: int,
)
    requires
        0 <= n <= states.len(),
        0 <= j < n,
        has_next(states[j]),
    ensures
        best_operation(states, weights, pressure, n) matches Some(i) && 0 <= i < n && has_next(
            states[i],
        ) && !crate::order::keys_less(
            priority(states[j], weights, pressure),
            priority(states[i], weights, pressure),
        ),
    decreases n,
{
    let rest = best_operation(states, weights, pressure, n - 1);
    lemma_best_is_among(states, weights, pressure, n - 1);
    if j < n - 1 {
        the_most_promising_family_goes_first(states, weights, pressure, n - 1, j);
        let best = rest.unwrap();
        if has_next(states[n - 1]) && crate::order::keys_less(
            priority(states[n - 1], weights, pressure),
            priority(states[best], weights, pressure),
        ) {
            let last = priority(states[n - 1], weights, pressure);
            let own = priority(states[j], weights, pressure);
            let known = priority(states[best], weights, pressure);
            if crate::order::keys_less(own, last) {
                crate::order::lemma_keys_less_transitive(own, last, known);
            }
        }
    } else {
        crate::order::lemma_keys_less(
            priority(states[j], weights, pressure),
            priority(states[j], weights, pressure),
        );
        if rest is Some {
            crate::order::lemma_keys_less(
                priority(states[j], weights, pressure),
                priority(states[rest.unwrap()], weights, pressure),
            );
        }
    }
}

proof fn lemma_best_is_among(
    states: Seq<OperationModel>,
    weights: WeightsModel,
    pressure: Seq<u16>,
    n: int,
)
    requires
        0 <= n <= states.len(),
    ensures
        best_operation(states, weights, pressure, n) matches Some(i) ==> 0 <= i < n && has_next(
            states[i],
        ),
    decreases n,
{
    if n > 0 {
        lemma_best_is_among(states, weights, pressure, n - 1);
    }
}

/// A family of more weight goes before one of less, whatever else speaks for that; among families
/// of one weight, the one that was turned down less often than it was not.
pub proof fn weight_goes_before_all_else(
    states: Seq<OperationModel>,
    weights: WeightsModel,
    pressure: Seq<u16>,
    j: int,
)
    requires
        0 <= j < states.len(),
        has_next(states[j]),
    ensures
        best_operation(states, weights, pressure, states.len() as int) matches Some(i) && {
            let own = weights.of_operation(states[i].operation);
            let other = weights.of_operation(states[j].operation);
            &&& own >= other
            &&& own == other ==> surplus(states[i]) <= surplus(states[j])
        },
{
    the_most_promising_family_goes_first(states, weights, pressure, states.len() as int, j);
    let i = best_operation(states, weights, pressure, states.len() as int).unwrap();
    let a = priority(states[j], weights, pressure);
    let b = priority(states[i], weights, pressure);
    reveal_with_fuel(crate::order::keys_less_from, 3);
    assert(a[0] == (u64::MAX - weights.of_operation(states[j].operation)) as u64);
    assert(b[0] == (u64::MAX - weights.of_operation(states[i].operation)) as u64);
    assert(a[1] == surplus(states[j]));
    assert(b[1] == surplus(states[i]));
}

/// By how much a family was turned down more often than it was not.
pub open spec fn surplus(state: OperationModel) -> int {
    if state.rejects >= state.preserves {
        state.rejects - state.preserves
    } else {
        0
    }
}

/// A candidate that was turned down puts its bytes under eight more, up to what 16 bits hold, and
/// one that was not takes one off them, down to one. No other byte is touched, and no feedback on
/// an earlier best case counts.
pub proof fn feedback_presses_its_bytes(
    pre: ReducerModel,
    origin: OriginModel,
    feedback: Feedback,
    weights: WeightsModel,
    i: int,
)
    requires
        0 <= i < pre.pressure.len(),
    ensures
        ({
            let post = after_feedback(pre, origin, feedback, weights);
            let counts = origin matches OriginModel::CautiousReduction(id) && id.epoch == pre.epoch;
            &&& !counts ==> post == pre
            &&& post.pressure.len() == pre.pressure.len()
            &&& counts ==> (origin matches OriginModel::CautiousReduction(id) && {
                let there = id.start <= i < id.start + id.len;
                &&& !there ==> post.pressure[i] == pre.pressure[i]
                &&& there && feedback == Feedback::Rejected ==> post.pressure[i]
                    == if pre.pressure[i] <= 0xffff - 8 {
                    pre.pressure[i] + 8
                } else {
                    0xffff
                }
                &&& there && feedback == Feedback::Preserved ==> post.pressure[i]
                    == if pre.pressure[i] > 1 {
                    pre.pressure[i] - 1
                } else {
                    1
                }
            })
            &&& post.best == pre.best
            &&& post.epoch == pre.epoch
            &&& post.tried == pre.tried
            &&& post.exhausted == pre.exhausted
            &&& post.states.len() == pre.states.len()
        }),
{
    if let OriginModel::CautiousReduction(id) = origin {
        if id.epoch == pre.epoch {
            let pressure = pressed_range(pre.pressure, id.start, id.len, feedback);
            lemma_first_in_range(pre.states, id.operation, 0);
            assert(pressure.len() == pre.pressure.len());
            assert(counted_operations(pre.states, id.operation, feedback).len()
                == pre.states.len());
            assert(after_feedback(pre, origin, feedback, weights).pressure == pressure);
        }
    }
}

/// Feedback is counted once: for the reducer, and for the family that the candidate is of.
pub proof fn feedback_is_counted(
    states: Seq<OperationModel>,
    operation: crate::reduction::ReductionOperation,
    feedback: Feedback,
    i: int,
)
    requires
        0 <= i < states.len(),
        forall|a: int, b: int|
            0 <= a < b < states.len() ==> (#[trigger] states[a]).operation != (
            #[trigger] states[b]).operation,
        states[i].rejects < u64::MAX,
        states[i].preserves < u64::MAX,
    ensures
        ({
            let after = counted_operations(states, operation, feedback)[i];
            let own = states[i].operation == operation;
            &&& after.rejects - states[i].rejects == if own && feedback == Feedback::Rejected {
                1int
            } else {
                0
            }
            &&& after.preserves - states[i].preserves == if own && feedback == Feedback::Preserved {
                1int
            } else {
                0
            }
            &&& after.specs == states[i].specs
            &&& after.cursor == states[i].cursor
        }),
{
    lemma_first_operation(states, operation, 0, i);
}

proof fn lemma_first_in_range(
    states: Seq<OperationModel>,
    operation: crate::reduction::ReductionOperation,
    from: int,
)
    ensures
        first_operation(states, operation, from) matches Some(k) ==> 0 <= k < states.len(),
    decreases states.len() - from,
{
    if 0 <= from < states.len() {
        lemma_first_in_range(states, operation, from + 1);
    }
}

proof fn lemma_first_operation(
    states: Seq<OperationModel>,
    operation: crate::reduction::ReductionOperation,
    from: int,
    i: int,
)
    requires
        0 <= from <= i < states.len(),
        forall|a: int, b: int|
            0 <= a < b < states.len() ==> (#[trigger] states[a]).operation != (
            #[trigger] states[b]).operation,
    ensures
        first_operation(states, operation, from) matches Some(k) ==> from <= k < states.len()
            && states[k].operation == operation,
        states[i].operation == operation ==> first_operation(states, operation, from) == Some(i),
    decreases states.len() - from,
{
    if states[from].operation == operation {
        if from < i {
            assert(states[from].operation != states[i].operation);
        }
    } else if from < i {
        lemma_first_operation(states, operation, from + 1, i);
    } else if from + 1 < states.len() {
        lemma_first_operation(states, operation, from + 1, from + 1);
    }
}

/// Putting a family in order loses none of its reductions and keeps those that were tried where
/// they are.
pub proof fn ordering_loses_nothing(
    state: OperationModel,
    weights: WeightsModel,
    pressure: Seq<u16>,
)
    requires
        state.cursor <= state.specs.len(),
    ensures
        ({
            let sorted = sorted_operation(state, weights, pressure);
            &&& sorted.specs.to_multiset() == state.specs.to_multiset()
            &&& sorted.specs.len() == state.specs.len()
            &&& sorted.specs.take(state.cursor as int) == state.specs.take(state.cursor as int)
            &&& sorted.cursor == state.cursor
            &&& sorted.drained <==> state.drained || state.cursor == state.specs.len()
        }),
{
    if state.cursor < state.specs.len() {
        let tried = state.specs.take(state.cursor as int);
        let left = state.specs.skip(state.cursor as int);
        let keys = super::state::tail_keys(weights, pressure);
        sorting_keeps_items(left, keys);
        let sorted = tried + sorted_by(left, keys);
        vstd::seq_lib::lemma_multiset_commutative(tried, left);
        vstd::seq_lib::lemma_multiset_commutative(tried, sorted_by(left, keys));
        assert(state.specs =~= tried + left);
        assert(sorted.take(state.cursor as int) =~= tried);
    }
}

/// A new best case starts the reducer over, under a new number and with nothing tried but itself.
pub proof fn a_new_best_starts_over(pre: ReducerModel, index: usize, best: BestModel, i: int)
    requires
        0 <= i < best.prefix.len(),
    ensures
        ({
            let post = reset_reducer(pre, index, best);
            &&& post.epoch != pre.epoch
            &&& pre.epoch < u64::MAX ==> post.epoch == pre.epoch + 1
            &&& post.best == best
            &&& post.best_index == Some(index)
            &&& !post.exhausted
            &&& post.rejects == 0
            &&& post.preserves == 0
            &&& post.pressure.len() == best.prefix.len()
            &&& post.pressure[i] == 1
            &&& forall|key: u128| #[trigger]
                post.tried.contains(key) <==> key == super::state::tried_key(best.prefix)
            &&& post.states.len() == 15
            &&& forall|k: int|
                0 <= k < post.states.len() ==> (#[trigger] post.states[k]).specs.len() == 0
                    && !post.states[k].drained && post.states[k].cursor == 0
        }),
{
}

/// The pressure on a range lies between the least and the greatest of its bytes.
pub proof fn mean_pressure_lies_between(
    pressure: Seq<u16>,
    start: int,
    len: int,
    low: int,
    high: int,
)
    requires
        0 <= start,
        0 < len,
        start + len <= pressure.len(),
        forall|i: int| start <= i < start + len ==> low <= #[trigger] pressure[i] <= high,
    ensures
        low <= range_weight_spec(pressure, start, len) <= high,
{
    let range = pressure.subrange(start, start + len);
    assert forall|i: int| 0 <= i < range.len() implies low <= #[trigger] range[i] <= high by {
        assert(range[i] == pressure[start + i]);
    }
    lemma_pressure_sum(range, low, high);
    let sum = pressure_sum(range);
    assert(low <= sum / len <= high) by (nonlinear_arith)
        requires
            low * len <= sum <= high * len,
            0 < len,
    ;
}

proof fn lemma_pressure_sum(pressure: Seq<u16>, low: int, high: int)
    requires
        forall|i: int| 0 <= i < pressure.len() ==> low <= #[trigger] pressure[i] <= high,
    ensures
        low * pressure.len() <= pressure_sum(pressure) <= high * pressure.len(),
    decreases pressure.len(),
{
    if pressure.len() > 0 {
        let fewer = pressure.drop_last();
        assert forall|i: int| 0 <= i < fewer.len() implies low <= #[trigger] fewer[i] <= high by {
            assert(fewer[i] == pressure[i]);
        }
        lemma_pressure_sum(fewer, low, high);
        assert(low <= pressure[pressure.len() - 1] <= high);
        let n = fewer.len() as int;
        assert(low * (n + 1) == low * n + low) by (nonlinear_arith);
        assert(high * (n + 1) == high * n + high) by (nonlinear_arith);
    } else {
        assert(low * 0 == 0);
        assert(high * 0 == 0);
    }
}

/// A reduction of a draw zeroes it, or writes a word that is not larger at its start and zeros
/// behind it; no byte outside the draw changes.
pub proof fn draw_reductions_stay_in_the_draw(
    prefix: Seq<u8>,
    draws: Seq<DrawSpan>,
    limit: usize,
    spec: SpecModel,
    dictionary: Seq<Seq<u8>>,
)
    requires
        prefix.len() <= usize::MAX,
        super::bytes::draw_length_list(prefix, draws, limit).contains(spec),
    ensures
        exists|draw: DrawSpan|
            {
                &&& #[trigger] draws.contains(draw)
                &&& draw.start < draw.end <= prefix.len()
                &&& spec.op.start == draw.start
                &&& draw.start + spec.op.len <= draw.end
                &&& reduced(spec, prefix, dictionary) matches Some(after) && after.len()
                    == prefix.len() && le_value(
                    after.subrange(draw.start as int, draw.start + spec.op.len),
                ) <= le_value(prefix.subrange(draw.start as int, draw.start + spec.op.len))
                    && forall|i: int|
                    0 <= i < prefix.len() && !(draw.start <= i < draw.start + spec.op.len)
                        ==> #[trigger] after[i] == if draw.start <= i < draw.end {
                        0
                    } else {
                        prefix[i]
                    }
            },
{
    let part = super::bytes::draw_length_part(prefix, draws);
    let n = at_most(draws.len(), limit);
    lemma_flat_item(n, part, spec);
    let d = choose|d: int| 0 <= d < n && (#[trigger] part(d)).contains(spec);
    let draw = draws[d];
    assert(draws.contains(draw));
    let len = (draw.end - draw.start) as usize;
    let zeroing = super::bytes::one_if(
        draw.affinity == crate::trace::ByteAffinity::Zero && !all_zero(
            prefix,
            draw.start as int,
            draw.end as int,
        ),
        crate::reduction::zero_range_op(draw.start, len),
    );
    let widths = crate::targets::draw_widths_spec(len as int);
    let words = flat(widths.len(), super::bytes::draw_length_widths(prefix, draw));
    let k = choose|k: int| 0 <= k < (zeroing + words).len() && (zeroing + words)[k] == spec;
    if k < zeroing.len() {
        zeroed_bytes_are_zero(draw.start, len, 0, prefix, dictionary);
        let after = reduced(spec, prefix, dictionary).unwrap();
        let own = after.subrange(draw.start as int, draw.start + spec.op.len);
        lemma_zero_value(own);
        lemma_le_value_bound(prefix.subrange(draw.start as int, draw.start + spec.op.len));
    } else {
        assert(words[k - zeroing.len()] == spec);
        assert(words.contains(spec));
        lemma_flat_item(widths.len(), super::bytes::draw_length_widths(prefix, draw), spec);
        let w = choose|w: int|
            0 <= w < widths.len() && (#[trigger] super::bytes::draw_length_widths(
                prefix,
                draw,
            )(w)).contains(spec);
        let width = widths[w];
        let highest = if len < 8 {
            len as int
        } else {
            8
        };
        kept_once_is_bounded(seq![highest, 4, 2, 1], 1, highest + 1, -1);
        let word = le_value(prefix.subrange(draw.start as int, draw.start + width));
        let targets = crate::targets::small_length_targets_spec(word, width as usize);
        let own = super::bytes::draw_length_words(prefix, draw, width);
        lemma_flat_item(targets.len(), own, spec);
        let t = choose|t: int| 0 <= t < targets.len() && (#[trigger] own(t)).contains(spec);
        let max = crate::targets::max_word_value_spec(width as usize) as int;
        kept_once_is_bounded(
            crate::targets::counting(17) + seq![
                31,
                32,
                63,
                64,
                127,
                128,
                255,
                word / 2,
                word / 4,
                less_by(word, 1),
            ],
            0,
            if word < max {
                word + 1
            } else {
                max + 1
            },
            -1,
        );
        lemma_le_value_bound(prefix.subrange(draw.start as int, draw.start + width));
        crate::targets::lemma_pow256();
        crate::targets::lemma_pow256_grows(width as nat, 8);
        let target = targets[t];
        assert(0 <= target <= word);
        crate::mutation::set_words_are_read_back(
            draw.start,
            width as usize,
            target as u64,
            Some(draw.end),
            prefix,
            dictionary,
        );
    }
}

/// Zeros stand for zero.
proof fn lemma_zero_value(bytes: Seq<u8>)
    requires
        forall|i: int| 0 <= i < bytes.len() ==> #[trigger] bytes[i] == 0,
    ensures
        le_value(bytes) == 0,
    decreases bytes.len(),
{
    if bytes.len() > 0 {
        assert forall|i: int| 0 <= i < bytes.skip(1).len() implies #[trigger] bytes.skip(1)[i]
            == 0 by {
            assert(bytes.skip(1)[i] == bytes[i + 1]);
        }
        lemma_zero_value(bytes.skip(1));
    }
}

/// Every source of an item is an earlier item that is simpler.
proof fn lemma_sources(
    prefix: Seq<u8>,
    items: Seq<crate::trace::ItemSpan>,
    target: int,
    k: int,
)
    requires
        0 < target < items.len(),
        0 <= k < super::sequences::sources_spec(prefix, items, target).len(),
    ensures
        ({
            let source = super::sequences::sources_spec(prefix, items, target)[k];
            &&& 0 <= source < target
            &&& super::sequences::replacement_ok(prefix, items[source], items[target])
        }),
{
    lemma_simplest(prefix, items, target, target);
}

proof fn lemma_simplest(
    prefix: Seq<u8>,
    items: Seq<crate::trace::ItemSpan>,
    target: int,
    n: int,
)
    requires
        0 <= n <= items.len(),
    ensures
        super::sequences::simplest_prior(prefix, items, target, n) matches Some(source) ==> 0
            <= source < n,
    decreases n,
{
    if n > 0 {
        lemma_simplest(prefix, items, target, n - 1);
    }
}

/// A reduction that replaces an item of a sequence puts a simpler item that stands before it in
/// its place, and keeps every other item and their number.
pub proof fn replaced_items_become_simpler(
    prefix: Seq<u8>,
    sequences: Seq<SequenceModel>,
    limit: usize,
    spec: SpecModel,
)
    requires
        prefix.len() <= usize::MAX,
        super::sequences::sequence_replace_list(prefix, sequences, limit).contains(spec),
        forall|s: int|
            0 <= s < sequences.len() ==> (#[trigger] sequences[s]).items.len() <= usize::MAX,
    ensures
        exists|sequence: SequenceModel, target: int, source: int|
            #![trigger sequences.contains(sequence), sequence.items[target], sequence.items[source]]
            {
                &&& sequences.contains(sequence)
                &&& 0 <= source < target < sequence.items.len()
                &&& super::sequences::simpler_item(
                    super::sequences::item_bytes(prefix, sequence.items[source]),
                    super::sequences::item_bytes(prefix, sequence.items[target]),
                )
                &&& spec.op.mutation matches MutationModel::ProjectSequenceItems {
                    length_start,
                    length_width,
                    target_len,
                    items,
                    ..
                } && length_start == sequence.length_start && length_width == sequence.length_len
                    && target_len == sequence.items.len() && items.len() == sequence.items.len()
                    && items[target].start == sequence.items[source].start && forall|k: int|
                    0 <= k < items.len() && k != target ==> (#[trigger] items[k]).start
                        == sequence.items[k].start
            },
{
    let n = at_most(sequences.len(), limit);
    let parts = super::sequences::sequence_replace_part(prefix, sequences);
    lemma_flat_item(n, parts, spec);
    let s = choose|s: int| 0 <= s < n && (#[trigger] parts(s)).contains(spec);
    let sequence = sequences[s];
    assert(sequences.contains(sequence));
    let count = (sequence.items.len() - 1) as nat;
    let targets = super::sequences::replace_targets(prefix, sequence);
    lemma_flat_item(count, targets, spec);
    let t = choose|t: int| 0 <= t < count && (#[trigger] targets(t)).contains(spec);
    let target = t + 1;
    let sources = super::sequences::sources_spec(prefix, sequence.items, target);
    let own = super::sequences::replace_sources(prefix, sequence, target);
    lemma_flat_item(sources.len(), own, spec);
    let k = choose|k: int| 0 <= k < sources.len() && (#[trigger] own(k)).contains(spec);
    lemma_sources(prefix, sequence.items, target, k);
    let source = sources[k];
    let indices = crate::targets::counting(sequence.items.len()).update(target, source);
    assert(own(k)[0] == spec);
    assert(spec.op.mutation matches MutationModel::ProjectSequenceItems { items, .. } && items
        == chosen(sequence, indices));
    assert(sequence.items[source].start == chosen(sequence, indices)[target].start);
    assert(sequence.items[target].start == sequence.items[target].start);
}

} // verus!
