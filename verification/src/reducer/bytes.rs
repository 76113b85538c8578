//! Reductions of the bytes of a path, and of the draws they come from.

use crate::mutation::byte_lists;
use crate::order::{
    arranged, bytes_less, less_bytes, lemma_sorted_by_is_arranged, sorted_by, stable_order,
};
use crate::reducer::ranking::{at_most, descending, flat, limited};
use crate::reduction::{
    delete_range_op, push_spec, replace_dictionary_op, set_byte_op, set_word_op, spec_models,
    zero_range_op, zero_repeated_op, OpModel, ReductionOp, ReductionSpec, SpecModel,
};
use crate::targets::{
    block_starts, block_starts_spec, draw_widths, draw_widths_spec, keep_sizes, kept_once,
    kept_once_is_bounded, le_value, less_by, push_steps, read_le_word, shrink_sizes,
    shrink_sizes_including_full, shrink_sizes_including_full_spec, shrink_sizes_spec, size_ints,
    small_length_targets, small_length_targets_spec, smaller_byte_targets,
    smaller_byte_targets_spec, smaller_word_targets, smaller_word_targets_spec, steps, word_ints,
};
use crate::trace::{span_len, ByteAffinity, DrawSpan};
use vstd::prelude::*;
use vstd::slice::slice_subrange;

verus! {

/// One reduction that is not put off.
pub open spec fn one(op: OpModel) -> Seq<SpecModel> {
    seq![SpecModel { op, bias: 0 }]
}

/// One reduction that is not put off, or none.
pub open spec fn one_if(condition: bool, op: OpModel) -> Seq<SpecModel> {
    if condition {
        one(op)
    } else {
        Seq::empty()
    }
}

/// The draw holds bytes, and all of them are in the path.
pub open spec fn valid_draw_spec(total: int, draw: DrawSpan) -> bool {
    draw.start < draw.end <= total
}

/// The draw holds bytes, and all of them are in the path.
pub fn valid_draw(total: usize, draw: &DrawSpan) -> (valid: bool)
    ensures
        valid == valid_draw_spec(total as int, *draw),
{
    !draw.is_empty() && draw.end <= total
}

/// Every byte in `start..end` is zero.
pub open spec fn all_zero(prefix: Seq<u8>, start: int, end: int) -> bool {
    forall|k: int| start <= k < end ==> #[trigger] prefix[k] == 0
}

fn is_all_zero(prefix: &Vec<u8>, start: usize, end: usize) -> (zero: bool)
    requires
        start <= end <= prefix@.len(),
    ensures
        zero == all_zero(prefix@, start as int, end as int),
{
    let mut i: usize = start;
    while i < end
        invariant
            start <= i <= end <= prefix@.len(),
            all_zero(prefix@, start as int, i as int),
        decreases end - i,
    {
        if prefix[i] != 0 {
            assert(prefix@[i as int] != 0);
            return false;
        }
        i += 1;
    }
    true
}

/// Number of bytes that are not zero.
pub open spec fn nonzero(bytes: Seq<u8>) -> nat
    decreases bytes.len(),
{
    if bytes.len() == 0 {
        0
    } else {
        nonzero(bytes.drop_last()) + (if bytes.last() != 0 {
            1nat
        } else {
            0
        })
    }
}

/// Number of bytes that are not zero.
pub fn nonzero_count(bytes: &[u8]) -> (count: usize)
    ensures
        count == nonzero(bytes@),
        count <= bytes@.len(),
{
    let mut count: usize = 0;
    let mut i: usize = 0;
    assert(bytes@.take(0) =~= Seq::<u8>::empty());
    while i < bytes.len()
        invariant
            i <= bytes@.len(),
            count == nonzero(bytes@.take(i as int)),
            count <= i,
        decreases bytes@.len() - i,
    {
        assert(bytes@.take(i + 1).drop_last() =~= bytes@.take(i as int));
        if bytes[i] != 0 {
            count += 1;
        }
        i += 1;
    }
    assert(bytes@.take(bytes@.len() as int) =~= bytes@);
    count
}

/// Words at the start of a draw, set to smaller lengths.
pub open spec fn draw_length_words(
    prefix: Seq<u8>,
    draw: DrawSpan,
    width: int,
) -> spec_fn(int) -> Seq<SpecModel> {
    let word = le_value(prefix.subrange(draw.start as int, draw.start + width));
    |t: int|
        one(
            set_word_op(
                draw.start,
                width as usize,
                small_length_targets_spec(word, width as usize)[t] as u64,
                Some(draw.end),
            ),
        )
}

/// Words of each width at the start of a draw.
pub open spec fn draw_length_widths(
    prefix: Seq<u8>,
    draw: DrawSpan,
) -> spec_fn(int) -> Seq<SpecModel> {
    |w: int|
        {
            let width = draw_widths_spec(span_len(draw.start, draw.end) as int)[w];
            let word = le_value(prefix.subrange(draw.start as int, draw.start + width));
            flat(
                small_length_targets_spec(word, width as usize).len(),
                draw_length_words(prefix, draw, width),
            )
        }
}

/// What is tried on one draw: to zero it where that is what it is for, and to read its start as a
/// length and make that smaller.
pub open spec fn draw_length_part(
    prefix: Seq<u8>,
    draws: Seq<DrawSpan>,
) -> spec_fn(int) -> Seq<SpecModel> {
    |i: int|
        {
            let draw = draws[i];
            let len = span_len(draw.start, draw.end);
            if valid_draw_spec(prefix.len() as int, draw) {
                one_if(
                    draw.affinity == ByteAffinity::Zero && !all_zero(
                        prefix,
                        draw.start as int,
                        draw.end as int,
                    ),
                    zero_range_op(draw.start, len),
                ) + flat(draw_widths_spec(len as int).len(), draw_length_widths(prefix, draw))
            } else {
                Seq::empty()
            }
        }
}

/// Smaller lengths at the start of the first draws.
pub open spec fn draw_length_list(
    prefix: Seq<u8>,
    draws: Seq<DrawSpan>,
    limit: usize,
) -> Seq<SpecModel> {
    flat(at_most(draws.len(), limit), draw_length_part(prefix, draws))
}

/// Append the smaller lengths at the start of one draw.
fn push_draw_lengths(specs: &mut Vec<ReductionSpec>, prefix: &Vec<u8>, draw: &DrawSpan)
    requires
        valid_draw_spec(prefix@.len() as int, *draw),
    ensures
        spec_models(final(specs)@) == spec_models(old(specs)@) + flat(
            draw_widths_spec(span_len(draw.start, draw.end) as int).len(),
            draw_length_widths(prefix@, *draw),
        ),
{
    let total: usize = prefix.len();
    let ghost before = spec_models(specs@);
    let len: usize = draw.len();
    let widths = draw_widths(len);
    let ghost part = draw_length_widths(prefix@, *draw);
    proof {
        let highest = if len < 8 {
            len as int
        } else {
            8
        };
        kept_once_is_bounded(seq![highest, 4, 2, 1], 1, highest + 1, -1);
    }
    let mut w: usize = 0;
    assert(before + flat(0, part) =~= before);
    while w < widths.len()
        invariant
            w <= widths@.len(),
            total == prefix@.len(),
            valid_draw_spec(total as int, *draw),
            len == span_len(draw.start, draw.end),
            part == draw_length_widths(prefix@, *draw),
            size_ints(widths@) == draw_widths_spec(len as int),
            forall|k: int|
                0 <= k < widths@.len() ==> 1 <= #[trigger] draw_widths_spec(len as int)[k] <= 8
                    && draw_widths_spec(len as int)[k] <= len,
            spec_models(specs@) == before + flat(w as nat, part),
        decreases widths@.len() - w,
    {
        let width: usize = widths[w];
        assert(size_ints(widths@)[w as int] == width as int);
        let word = read_le_word(prefix, draw.start, draw.start + width);
        let targets = small_length_targets(word, width);
        let ghost listed = spec_models(specs@);
        let ghost words = draw_length_words(prefix@, *draw, width as int);
        let mut t: usize = 0;
        assert(listed + flat(0, words) =~= listed);
        while t < targets.len()
            invariant
                t <= targets@.len(),
                words == draw_length_words(prefix@, *draw, width as int),
                word == le_value(prefix@.subrange(draw.start as int, draw.start + width)),
                word_ints(targets@) == small_length_targets_spec(word as int, width),
                spec_models(specs@) == listed + flat(t as nat, words),
            decreases targets@.len() - t,
        {
            let ghost sofar = spec_models(specs@);
            assert(word_ints(targets@)[t as int] == targets@[t as int] as int);
            push_spec(specs, ReductionOp::set_word(draw.start, width, targets[t], Some(draw.end)), 0);
            t += 1;
            assert(sofar + words(t - 1) =~= listed + flat(t as nat, words));
        }
        assert(word_ints(targets@).len() == targets@.len());
        w += 1;
        assert(listed + part(w - 1) =~= before + flat(w as nat, part));
    }
    assert(size_ints(widths@).len() == widths@.len());
}

/// Smaller lengths at the start of the first draws.
pub fn draw_length_specs(prefix: &Vec<u8>, draws: &Vec<DrawSpan>, limit: usize) -> (specs: Vec<
    ReductionSpec,
>)
    ensures
        spec_models(specs@) == draw_length_list(prefix@, draws@, limit),
{
    let mut specs: Vec<ReductionSpec> = Vec::new();
    let ghost part = draw_length_part(prefix@, draws@);
    let n: usize = limited(draws.len(), limit);
    let mut i: usize = 0;
    assert(spec_models(specs@) =~= Seq::<SpecModel>::empty());
    while i < n
        invariant
            i <= n <= draws@.len(),
            part == draw_length_part(prefix@, draws@),
            spec_models(specs@) == flat(i as nat, part),
        decreases n - i,
    {
        let draw = draws[i];
        let ghost listed = spec_models(specs@);
        if valid_draw(prefix.len(), &draw) {
            if draw.affinity == ByteAffinity::Zero && !is_all_zero(prefix, draw.start, draw.end) {
                push_spec(&mut specs, ReductionOp::zero_range(draw.start, draw.len()), 0);
            }
            push_draw_lengths(&mut specs, prefix, &draw);
        }
        i += 1;
        assert(spec_models(specs@) =~= listed + part(i - 1));
    }
    specs
}

/// The end of the path, off by each size.
pub open spec fn tail_trim_part(len: int) -> spec_fn(int) -> Seq<SpecModel> {
    |i: int|
        {
            let trim = shrink_sizes_including_full_spec(len)[i];
            one(delete_range_op(less_by(len, trim) as usize, trim as usize, true))
        }
}

/// The end of the path, off by each size.
pub open spec fn tail_trim_list(len: int) -> Seq<SpecModel> {
    if len == 0 {
        Seq::empty()
    } else {
        flat(shrink_sizes_including_full_spec(len).len(), tail_trim_part(len))
    }
}

/// The end of the path, off by each size.
pub fn tail_trim_specs(prefix: &Vec<u8>) -> (specs: Vec<ReductionSpec>)
    ensures
        spec_models(specs@) == tail_trim_list(prefix@.len() as int),
{
    let mut specs: Vec<ReductionSpec> = Vec::new();
    assert(spec_models(specs@) =~= Seq::<SpecModel>::empty());
    let len: usize = prefix.len();
    if len == 0 {
        return specs;
    }
    let ghost part = tail_trim_part(len as int);
    let sizes = shrink_sizes_including_full(len);
    let mut i: usize = 0;
    while i < sizes.len()
        invariant
            i <= sizes@.len(),
            part == tail_trim_part(len as int),
            size_ints(sizes@) == shrink_sizes_including_full_spec(len as int),
            spec_models(specs@) == flat(i as nat, part),
        decreases sizes@.len() - i,
    {
        let ghost listed = spec_models(specs@);
        let trim: usize = sizes[i];
        assert(size_ints(sizes@)[i as int] == trim as int);
        push_spec(&mut specs, ReductionOp::delete_range(len.saturating_sub(trim), trim, true), 0);
        i += 1;
        assert(spec_models(specs@) =~= listed + part(i - 1));
    }
    assert(size_ints(sizes@).len() == sizes@.len());
    specs
}

/// One draw, from the last one down.
pub open spec fn draw_delete_single(
    total: int,
    draws: Seq<DrawSpan>,
) -> spec_fn(int) -> Seq<SpecModel> {
    |i: int|
        {
            let draw = draws[draws.len() - 1 - i];
            one_if(
                draw.start != 0 && valid_draw_spec(total, draw),
                delete_range_op(draw.start, span_len(draw.start, draw.end), true),
            )
        }
}

/// `window` draws in a row, from the last ones down.
pub open spec fn draw_delete_window(
    total: int,
    draws: Seq<DrawSpan>,
    window: int,
) -> spec_fn(int) -> Seq<SpecModel> {
    |i: int|
        {
            let first = draws[draws.len() - window - i];
            let last = draws[draws.len() - 1 - i];
            one_if(
                first.start != 0 && valid_draw_spec(total, first) && valid_draw_spec(total, last)
                    && first.start < last.end,
                delete_range_op(first.start, span_len(first.start, last.end), true),
            )
        }
}

/// Numbers of draws that are deleted at once.
pub open spec fn draw_windows() -> Seq<int> {
    seq![32, 16, 8, 4, 3, 2]
}

/// Runs of draws of each length.
pub open spec fn draw_delete_windows(
    total: int,
    draws: Seq<DrawSpan>,
) -> spec_fn(int) -> Seq<SpecModel> {
    |w: int|
        {
            let window = draw_windows()[w];
            if draws.len() < window {
                Seq::empty()
            } else {
                flat(
                    (draws.len() - window + 1) as nat,
                    draw_delete_window(total, draws, window),
                )
            }
        }
}

/// Single draws and runs of draws, deleted; never the first bytes.
pub open spec fn draw_delete_list(
    total: int,
    draws: Seq<DrawSpan>,
    limit: usize,
) -> Seq<SpecModel> {
    if total <= 1 || draws.len() == 0 {
        Seq::empty()
    } else {
        flat(at_most(draws.len(), limit), draw_delete_single(total, draws)) + flat(
            6,
            draw_delete_windows(total, draws),
        )
    }
}

/// Append the deletion of `window` draws in a row.
fn push_draw_windows(
    specs: &mut Vec<ReductionSpec>,
    total: usize,
    draws: &Vec<DrawSpan>,
    window: usize,
)
    requires
        0 < window <= draws@.len(),
    ensures
        spec_models(final(specs)@) == spec_models(old(specs)@) + flat(
            (draws@.len() - window + 1) as nat,
            draw_delete_window(total as int, draws@, window as int),
        ),
{
    let ghost before = spec_models(specs@);
    let ghost part = draw_delete_window(total as int, draws@, window as int);
    let count: usize = draws.len();
    let mut i: usize = 0;
    assert(before + flat(0, part) =~= before);
    while i <= count - window
        invariant
            0 < window <= count,
            count == draws@.len(),
            i <= count - window + 1,
            part == draw_delete_window(total as int, draws@, window as int),
            spec_models(specs@) == before + flat(i as nat, part),
        decreases count - i,
    {
        let ghost listed = spec_models(specs@);
        let first = draws[count - window - i];
        let last = draws[count - 1 - i];
        if first.start != 0 && valid_draw(total, &first) && valid_draw(total, &last) && first.start
            < last.end {
            push_spec(
                specs,
                ReductionOp::delete_range(first.start, last.end - first.start, true),
                0,
            );
        }
        i += 1;
        assert(spec_models(specs@) =~= listed + part(i - 1));
        assert(listed + part(i - 1) =~= before + flat(i as nat, part));
    }
}

/// Single draws and runs of draws, deleted; never the first bytes.
pub fn draw_delete_specs(prefix: &Vec<u8>, draws: &Vec<DrawSpan>, limit: usize) -> (specs: Vec<
    ReductionSpec,
>)
    ensures
        spec_models(specs@) == draw_delete_list(prefix@.len() as int, draws@, limit),
{
    let mut specs: Vec<ReductionSpec> = Vec::new();
    assert(spec_models(specs@) =~= Seq::<SpecModel>::empty());
    let total: usize = prefix.len();
    let count: usize = draws.len();
    if total <= 1 || count == 0 {
        return specs;
    }
    let ghost single = draw_delete_single(total as int, draws@);
    let n: usize = limited(count, limit);
    let mut i: usize = 0;
    while i < n
        invariant
            i <= n <= count,
            count == draws@.len(),
            single == draw_delete_single(total as int, draws@),
            spec_models(specs@) == flat(i as nat, single),
        decreases n - i,
    {
        let ghost listed = spec_models(specs@);
        let draw = draws[count - 1 - i];
        if draw.start != 0 && valid_draw(total, &draw) {
            push_spec(&mut specs, ReductionOp::delete_range(draw.start, draw.len(), true), 0);
        }
        i += 1;
        assert(spec_models(specs@) =~= listed + single(i - 1));
    }
    let ghost singles = spec_models(specs@);
    let ghost part = draw_delete_windows(total as int, draws@);
    let windows: Vec<usize> = vec![32, 16, 8, 4, 3, 2];
    assert(size_ints(windows@) =~= draw_windows());
    let mut w: usize = 0;
    assert(singles + flat(0, part) =~= singles);
    while w < windows.len()
        invariant
            w <= windows@.len(),
            windows@.len() == 6,
            count == draws@.len(),
            part == draw_delete_windows(total as int, draws@),
            size_ints(windows@) == draw_windows(),
            spec_models(specs@) == singles + flat(w as nat, part),
        decreases windows@.len() - w,
    {
        let ghost listed = spec_models(specs@);
        let window: usize = windows[w];
        assert(size_ints(windows@)[w as int] == window as int);
        assert(window > 0);
        if count >= window {
            push_draw_windows(&mut specs, total, draws, window);
        }
        w += 1;
        assert(spec_models(specs@) =~= listed + part(w - 1));
        assert(listed + part(w - 1) =~= singles + flat(w as nat, part));
    }
    specs
}

/// Length of the block of `width` at `start`.
pub open spec fn block_len(start: int, width: int, total: int) -> int {
    if width <= total - start {
        width
    } else {
        total - start
    }
}

/// Blocks of one width, deleted.
pub open spec fn block_delete_starts(total: int, width: int) -> spec_fn(int) -> Seq<SpecModel> {
    |b: int|
        {
            let start = block_starts_spec(total, width)[b];
            let len = block_len(start, width, total);
            one_if(0 < len < total, delete_range_op(start as usize, len as usize, true))
        }
}

/// Blocks of each width, deleted.
pub open spec fn block_delete_widths(total: int) -> spec_fn(int) -> Seq<SpecModel> {
    |w: int|
        {
            let width = shrink_sizes_spec(total)[w];
            flat(block_starts_spec(total, width).len(), block_delete_starts(total, width))
        }
}

/// Blocks of the path, deleted; never all of it.
pub open spec fn block_delete_list(total: int) -> Seq<SpecModel> {
    if total <= 1 {
        Seq::empty()
    } else {
        flat(shrink_sizes_spec(total).len(), block_delete_widths(total))
    }
}

/// The places where blocks start lie in the path.
proof fn lemma_block_starts_bounded(total: int, width: int)
    requires
        total >= 0,
    ensures
        forall|b: int|
            0 <= b < block_starts_spec(total, width).len() ==> 0 <= #[trigger] block_starts_spec(
                total,
                width,
            )[b] < total,
{
    if total != 0 && width != 0 {
        kept_once_is_bounded(
            steps(0, width, total) + (if width > 1 {
                steps(width / 2, width, total)
            } else {
                Seq::empty()
            }) + seq![1, total / 2, less_by(total, width)],
            0,
            total,
            -1,
        );
    }
}

/// Append the deletion of the blocks of one width.
fn push_block_deletes(specs: &mut Vec<ReductionSpec>, total: usize, width: usize)
    ensures
        spec_models(final(specs)@) == spec_models(old(specs)@) + flat(
            block_starts_spec(total as int, width as int).len(),
            block_delete_starts(total as int, width as int),
        ),
{
    let ghost before = spec_models(specs@);
    let ghost part = block_delete_starts(total as int, width as int);
    let starts = block_starts(total, width);
    proof {
        lemma_block_starts_bounded(total as int, width as int);
    }
    let mut b: usize = 0;
    assert(before + flat(0, part) =~= before);
    while b < starts.len()
        invariant
            b <= starts@.len(),
            part == block_delete_starts(total as int, width as int),
            size_ints(starts@) == block_starts_spec(total as int, width as int),
            forall|b: int|
                0 <= b < starts@.len() ==> 0 <= #[trigger] block_starts_spec(
                    total as int,
                    width as int,
                )[b] < total,
            spec_models(specs@) == before + flat(b as nat, part),
        decreases starts@.len() - b,
    {
        let ghost listed = spec_models(specs@);
        let start: usize = starts[b];
        assert(size_ints(starts@)[b as int] == start as int);
        let len: usize = if width <= total - start {
            width
        } else {
            total - start
        };
        if len != 0 && len < total {
            push_spec(specs, ReductionOp::delete_range(start, len, true), 0);
        }
        b += 1;
        assert(spec_models(specs@) =~= listed + part(b - 1));
        assert(listed + part(b - 1) =~= before + flat(b as nat, part));
    }
    assert(size_ints(starts@).len() == starts@.len());
}

/// Blocks of the path, deleted; never all of it.
pub fn weighted_block_delete_specs(prefix: &Vec<u8>) -> (specs: Vec<ReductionSpec>)
    ensures
        spec_models(specs@) == block_delete_list(prefix@.len() as int),
{
    let mut specs: Vec<ReductionSpec> = Vec::new();
    assert(spec_models(specs@) =~= Seq::<SpecModel>::empty());
    let total: usize = prefix.len();
    if total <= 1 {
        return specs;
    }
    let ghost part = block_delete_widths(total as int);
    let sizes = shrink_sizes(total);
    let mut w: usize = 0;
    while w < sizes.len()
        invariant
            w <= sizes@.len(),
            part == block_delete_widths(total as int),
            size_ints(sizes@) == shrink_sizes_spec(total as int),
            spec_models(specs@) == flat(w as nat, part),
        decreases sizes@.len() - w,
    {
        assert(size_ints(sizes@)[w as int] == sizes@[w as int] as int);
        push_block_deletes(&mut specs, total, sizes[w]);
        w += 1;
    }
    assert(size_ints(sizes@).len() == sizes@.len());
    specs
}

/// Blocks of one width that are not zero yet, zeroed.
pub open spec fn block_zero_starts(prefix: Seq<u8>, width: int) -> spec_fn(int) -> Seq<SpecModel> {
    |b: int|
        {
            let start = block_starts_spec(prefix.len() as int, width)[b];
            let len = block_len(start, width, prefix.len() as int);
            one_if(
                len != 0 && !all_zero(prefix, start, start + len),
                zero_range_op(start as usize, len as usize),
            )
        }
}

/// Blocks of each width that are not zero yet, zeroed.
pub open spec fn block_zero_widths(prefix: Seq<u8>) -> spec_fn(int) -> Seq<SpecModel> {
    |w: int|
        {
            let width = shrink_sizes_including_full_spec(prefix.len() as int)[w];
            flat(
                block_starts_spec(prefix.len() as int, width).len(),
                block_zero_starts(prefix, width),
            )
        }
}

/// Blocks of the path that are not zero yet, zeroed.
pub open spec fn block_zero_list(prefix: Seq<u8>) -> Seq<SpecModel> {
    if prefix.len() == 0 {
        Seq::empty()
    } else {
        flat(
            shrink_sizes_including_full_spec(prefix.len() as int).len(),
            block_zero_widths(prefix),
        )
    }
}

/// Append the zeroing of the blocks of one width.
fn push_block_zeros(specs: &mut Vec<ReductionSpec>, prefix: &Vec<u8>, width: usize)
    ensures
        spec_models(final(specs)@) == spec_models(old(specs)@) + flat(
            block_starts_spec(prefix@.len() as int, width as int).len(),
            block_zero_starts(prefix@, width as int),
        ),
{
    let ghost before = spec_models(specs@);
    let ghost part = block_zero_starts(prefix@, width as int);
    let total: usize = prefix.len();
    let starts = block_starts(total, width);
    proof {
        lemma_block_starts_bounded(total as int, width as int);
    }
    let mut b: usize = 0;
    assert(before + flat(0, part) =~= before);
    while b < starts.len()
        invariant
            b <= starts@.len(),
            total == prefix@.len(),
            part == block_zero_starts(prefix@, width as int),
            size_ints(starts@) == block_starts_spec(total as int, width as int),
            forall|b: int|
                0 <= b < starts@.len() ==> 0 <= #[trigger] block_starts_spec(
                    total as int,
                    width as int,
                )[b] < total,
            spec_models(specs@) == before + flat(b as nat, part),
        decreases starts@.len() - b,
    {
        let ghost listed = spec_models(specs@);
        let start: usize = starts[b];
        assert(size_ints(starts@)[b as int] == start as int);
        let len: usize = if width <= total - start {
            width
        } else {
            total - start
        };
        if len != 0 && !is_all_zero(prefix, start, start + len) {
            push_spec(specs, ReductionOp::zero_range(start, len), 0);
        }
        b += 1;
        assert(spec_models(specs@) =~= listed + part(b - 1));
        assert(listed + part(b - 1) =~= before + flat(b as nat, part));
    }
    assert(size_ints(starts@).len() == starts@.len());
}

/// Blocks of the path that are not zero yet, zeroed.
pub fn block_zero_specs(prefix: &Vec<u8>) -> (specs: Vec<ReductionSpec>)
    ensures
        spec_models(specs@) == block_zero_list(prefix@),
{
    let mut specs: Vec<ReductionSpec> = Vec::new();
    assert(spec_models(specs@) =~= Seq::<SpecModel>::empty());
    let total: usize = prefix.len();
    if total == 0 {
        return specs;
    }
    let ghost part = block_zero_widths(prefix@);
    let sizes = shrink_sizes_including_full(total);
    let mut w: usize = 0;
    while w < sizes.len()
        invariant
            w <= sizes@.len(),
            part == block_zero_widths(prefix@),
            total == prefix@.len(),
            size_ints(sizes@) == shrink_sizes_including_full_spec(total as int),
            spec_models(specs@) == flat(w as nat, part),
        decreases sizes@.len() - w,
    {
        assert(size_ints(sizes@)[w as int] == sizes@[w as int] as int);
        push_block_zeros(&mut specs, prefix, sizes[w]);
        w += 1;
    }
    assert(size_ints(sizes@).len() == sizes@.len());
    specs
}

/// The start of a draw that holds a word of `width` bytes.
pub open spec fn drawn_start(
    total: int,
    draws: Seq<DrawSpan>,
    width: int,
) -> spec_fn(int) -> Seq<int> {
    |i: int|
        if valid_draw_spec(total, draws[i]) && span_len(draws[i].start, draws[i].end) >= width {
            seq![draws[i].start as int]
        } else {
            Seq::empty()
        }
}

/// Where words of `width` bytes are read: at the start of the first draws, then one after the
/// other.
pub open spec fn word_starts_spec(
    total: int,
    draws: Seq<DrawSpan>,
    limit: usize,
    width: int,
) -> Seq<int> {
    kept_once(
        flat(at_most(draws.len(), limit), drawn_start(total, draws, width)) + steps(
            0,
            width,
            total - width + 1,
        ),
        0,
        total - width + 1,
        -1,
    )
}

/// Where words of `width` bytes are read.
fn word_starts(total: usize, draws: &Vec<DrawSpan>, limit: usize, width: usize) -> (starts: Vec<
    usize,
>)
    requires
        0 < width <= total,
    ensures
        size_ints(starts@) == word_starts_spec(total as int, draws@, limit, width as int),
        forall|k: int| 0 <= k < starts@.len() ==> #[trigger] starts@[k] + width <= total,
{
    let mut candidates: Vec<usize> = Vec::new();
    let ghost part = drawn_start(total as int, draws@, width as int);
    let n: usize = limited(draws.len(), limit);
    let mut i: usize = 0;
    assert(size_ints(candidates@) =~= Seq::<int>::empty());
    while i < n
        invariant
            i <= n <= draws@.len(),
            part == drawn_start(total as int, draws@, width as int),
            size_ints(candidates@) == flat(i as nat, part),
        decreases n - i,
    {
        let ghost listed = candidates@;
        let draw = draws[i];
        if valid_draw(total, &draw) && draw.len() >= width {
            candidates.push(draw.start);
        }
        i += 1;
        assert(size_ints(candidates@) =~= size_ints(listed) + part(i - 1));
    }
    let end: usize = total - width + 1;
    push_steps(&mut candidates, 0, width, end);
    let starts = keep_sizes(&candidates, 0, end);
    proof {
        kept_once_is_bounded(size_ints(candidates@), 0, end as int, -1);
        assert forall|k: int| 0 <= k < starts@.len() implies #[trigger] starts@[k] + width
            <= total by {
            assert(size_ints(starts@)[k] == starts@[k] as int);
        }
    }
    starts
}

/// One word, set to each smaller word.
pub open spec fn word_lower_targets(
    prefix: Seq<u8>,
    start: int,
    width: int,
) -> spec_fn(int) -> Seq<SpecModel> {
    let word = le_value(prefix.subrange(start, start + width));
    |t: int|
        one(
            set_word_op(
                start as usize,
                width as usize,
                smaller_word_targets_spec(word, width as usize)[t] as u64,
                None,
            ),
        )
}

/// Each word of one width.
pub open spec fn word_lower_starts(
    prefix: Seq<u8>,
    draws: Seq<DrawSpan>,
    limit: usize,
    width: int,
) -> spec_fn(int) -> Seq<SpecModel> {
    |s: int|
        {
            let start = word_starts_spec(prefix.len() as int, draws, limit, width)[s];
            let word = le_value(prefix.subrange(start, start + width));
            flat(
                smaller_word_targets_spec(word, width as usize).len(),
                word_lower_targets(prefix, start, width),
            )
        }
}

/// Widths of the words that are lowered.
pub open spec fn word_widths() -> Seq<int> {
    seq![8, 4, 2]
}

/// The words of each width.
pub open spec fn word_lower_widths(
    prefix: Seq<u8>,
    draws: Seq<DrawSpan>,
    limit: usize,
) -> spec_fn(int) -> Seq<SpecModel> {
    |w: int|
        {
            let width = word_widths()[w];
            if prefix.len() < width {
                Seq::empty()
            } else {
                flat(
                    word_starts_spec(prefix.len() as int, draws, limit, width).len(),
                    word_lower_starts(prefix, draws, limit, width),
                )
            }
        }
}

/// Words of the path, lowered.
pub open spec fn word_lower_list(
    prefix: Seq<u8>,
    draws: Seq<DrawSpan>,
    limit: usize,
) -> Seq<SpecModel> {
    flat(3, word_lower_widths(prefix, draws, limit))
}

/// Append the smaller words for one word.
fn push_word_targets(specs: &mut Vec<ReductionSpec>, prefix: &Vec<u8>, start: usize, width: usize)
    requires
        start + width <= prefix@.len(),
        width <= 8,
    ensures
        spec_models(final(specs)@) == spec_models(old(specs)@) + flat(
            smaller_word_targets_spec(
                le_value(prefix@.subrange(start as int, start + width)),
                width,
            ).len(),
            word_lower_targets(prefix@, start as int, width as int),
        ),
{
    let ghost before = spec_models(specs@);
    let ghost part = word_lower_targets(prefix@, start as int, width as int);
    let total: usize = prefix.len();
    let word = read_le_word(prefix, start, start + width);
    let targets = smaller_word_targets(word, width);
    let mut t: usize = 0;
    assert(before + flat(0, part) =~= before);
    while t < targets.len()
        invariant
            t <= targets@.len(),
            part == word_lower_targets(prefix@, start as int, width as int),
            word == le_value(prefix@.subrange(start as int, start + width)),
            word_ints(targets@) == smaller_word_targets_spec(word as int, width),
            spec_models(specs@) == before + flat(t as nat, part),
        decreases targets@.len() - t,
    {
        let ghost listed = spec_models(specs@);
        assert(word_ints(targets@)[t as int] == targets@[t as int] as int);
        push_spec(specs, ReductionOp::set_word(start, width, targets[t], None), 0);
        t += 1;
        assert(listed + part(t - 1) =~= before + flat(t as nat, part));
    }
    assert(word_ints(targets@).len() == targets@.len());
}

/// Words of the path, lowered.
pub fn word_lower_specs(prefix: &Vec<u8>, draws: &Vec<DrawSpan>, limit: usize) -> (specs: Vec<
    ReductionSpec,
>)
    ensures
        spec_models(specs@) == word_lower_list(prefix@, draws@, limit),
{
    let mut specs: Vec<ReductionSpec> = Vec::new();
    assert(spec_models(specs@) =~= Seq::<SpecModel>::empty());
    let ghost part = word_lower_widths(prefix@, draws@, limit);
    let total: usize = prefix.len();
    let widths: Vec<usize> = vec![8, 4, 2];
    assert(size_ints(widths@) =~= word_widths());
    let mut w: usize = 0;
    while w < widths.len()
        invariant
            w <= widths@.len(),
            widths@.len() == 3,
            total == prefix@.len(),
            part == word_lower_widths(prefix@, draws@, limit),
            size_ints(widths@) == word_widths(),
            spec_models(specs@) == flat(w as nat, part),
        decreases widths@.len() - w,
    {
        let ghost listed = spec_models(specs@);
        let width: usize = widths[w];
        assert(size_ints(widths@)[w as int] == width as int);
        assert(0 < width <= 8);
        if total >= width {
            let ghost words = word_lower_starts(prefix@, draws@, limit, width as int);
            let starts = word_starts(total, draws, limit, width);
            let mut s: usize = 0;
            assert(listed + flat(0, words) =~= listed);
            while s < starts.len()
                invariant
                    s <= starts@.len(),
                    total == prefix@.len(),
                    width <= 8,
                    words == word_lower_starts(prefix@, draws@, limit, width as int),
                    size_ints(starts@) == word_starts_spec(
                        total as int,
                        draws@,
                        limit,
                        width as int,
                    ),
                    forall|k: int| 0 <= k < starts@.len() ==> #[trigger] starts@[k] + width <= total,
                    spec_models(specs@) == listed + flat(s as nat, words),
                decreases starts@.len() - s,
            {
                let ghost sofar = spec_models(specs@);
                assert(size_ints(starts@)[s as int] == starts@[s as int] as int);
                push_word_targets(&mut specs, prefix, starts[s], width);
                s += 1;
                assert(sofar + words(s - 1) =~= listed + flat(s as nat, words));
            }
            assert(size_ints(starts@).len() == starts@.len());
        }
        w += 1;
        assert(spec_models(specs@) =~= listed + part(w - 1));
    }
    specs
}

/// One byte, set to each smaller value.
pub open spec fn byte_lower_targets(prefix: Seq<u8>, i: int) -> spec_fn(int) -> Seq<SpecModel> {
    |t: int|
        one(set_byte_op(i as usize, smaller_byte_targets_spec(prefix[i] as int)[t] as u8))
}

/// Each byte.
pub open spec fn byte_lower_part(prefix: Seq<u8>) -> spec_fn(int) -> Seq<SpecModel> {
    |i: int|
        flat(
            smaller_byte_targets_spec(prefix[i] as int).len(),
            byte_lower_targets(prefix, i),
        )
}

/// Bytes of the path, lowered.
pub open spec fn byte_lower_list(prefix: Seq<u8>) -> Seq<SpecModel> {
    flat(prefix.len(), byte_lower_part(prefix))
}

/// Bytes of the path, lowered.
pub fn byte_lower_specs(prefix: &Vec<u8>) -> (specs: Vec<ReductionSpec>)
    ensures
        spec_models(specs@) == byte_lower_list(prefix@),
{
    let mut specs: Vec<ReductionSpec> = Vec::new();
    assert(spec_models(specs@) =~= Seq::<SpecModel>::empty());
    let ghost part = byte_lower_part(prefix@);
    let mut i: usize = 0;
    while i < prefix.len()
        invariant
            i <= prefix@.len(),
            part == byte_lower_part(prefix@),
            spec_models(specs@) == flat(i as nat, part),
        decreases prefix@.len() - i,
    {
        let ghost listed = spec_models(specs@);
        let ghost values = byte_lower_targets(prefix@, i as int);
        let targets = smaller_byte_targets(prefix[i]);
        let mut t: usize = 0;
        assert(listed + flat(0, values) =~= listed);
        while t < targets.len()
            invariant
                i < prefix@.len(),
                t <= targets@.len(),
                values == byte_lower_targets(prefix@, i as int),
                size_ints(targets@) == smaller_byte_targets_spec(prefix@[i as int] as int),
                forall|k: int| 0 <= k < targets@.len() ==> #[trigger] targets@[k] < 256,
                spec_models(specs@) == listed + flat(t as nat, values),
            decreases targets@.len() - t,
        {
            let ghost sofar = spec_models(specs@);
            assert(size_ints(targets@)[t as int] == targets@[t as int] as int);
            push_spec(&mut specs, ReductionOp::set_byte(i, targets[t] as u8), 0);
            t += 1;
            assert(sofar + values(t - 1) =~= listed + flat(t as nat, values));
        }
        assert(size_ints(targets@).len() == targets@.len());
        i += 1;
        assert(spec_models(specs@) =~= listed + part(i - 1));
    }
    specs
}

/// The bytes as numbers.
pub open spec fn byte_ints(bytes: Seq<u8>) -> Seq<int> {
    bytes.map_values(|byte: u8| byte as int)
}

/// How often `value` occurs.
pub open spec fn occurrences(bytes: Seq<u8>, value: int) -> nat
    decreases bytes.len(),
{
    if bytes.len() == 0 {
        0
    } else {
        occurrences(bytes.drop_last(), value) + (if bytes.last() == value {
            1nat
        } else {
            0
        })
    }
}

/// The value that occurs more often comes first.
pub open spec fn occurrence_keys(prefix: Seq<u8>) -> spec_fn(int) -> Seq<u64> {
    |value: int| seq![descending(occurrences(prefix, value) as int)]
}

/// The values other than zero, most frequent first.
pub open spec fn repeated_values(prefix: Seq<u8>) -> Seq<int> {
    sorted_by(kept_once(byte_ints(prefix), 1, 256, -1), occurrence_keys(prefix))
}

/// One value, zeroed everywhere.
pub open spec fn repeated_value_part(prefix: Seq<u8>) -> spec_fn(int) -> Seq<SpecModel> {
    |i: int| one(zero_repeated_op(repeated_values(prefix)[i] as u8))
}

/// Each value other than zero, zeroed everywhere.
pub open spec fn repeated_value_list(prefix: Seq<u8>) -> Seq<SpecModel> {
    flat(repeated_values(prefix).len(), repeated_value_part(prefix))
}

fn count_occurrences(bytes: &Vec<u8>, value: u8) -> (count: usize)
    ensures
        count == occurrences(bytes@, value as int),
{
    let mut count: usize = 0;
    let mut i: usize = 0;
    assert(bytes@.take(0) =~= Seq::<u8>::empty());
    while i < bytes.len()
        invariant
            i <= bytes@.len(),
            count == occurrences(bytes@.take(i as int), value as int),
            count <= i,
        decreases bytes@.len() - i,
    {
        assert(bytes@.take(i + 1).drop_last() =~= bytes@.take(i as int));
        if bytes[i] == value {
            count += 1;
        }
        i += 1;
    }
    assert(bytes@.take(bytes@.len() as int) =~= bytes@);
    count
}

/// Each value other than zero, zeroed everywhere.
pub fn repeated_value_specs(prefix: &Vec<u8>) -> (specs: Vec<ReductionSpec>)
    ensures
        spec_models(specs@) == repeated_value_list(prefix@),
{
    let mut candidates: Vec<usize> = Vec::with_capacity(prefix.len());
    let mut i: usize = 0;
    while i < prefix.len()
        invariant
            i <= prefix@.len(),
            candidates@.len() == i,
            forall|k: int| 0 <= k < i ==> #[trigger] candidates@[k] == prefix@[k],
        decreases prefix@.len() - i,
    {
        candidates.push(prefix[i] as usize);
        i += 1;
    }
    assert(size_ints(candidates@) =~= byte_ints(prefix@));
    let values = keep_sizes(&candidates, 1, 256);
    let ghost distinct = kept_once(byte_ints(prefix@), 1, 256, -1);
    proof {
        kept_once_is_bounded(byte_ints(prefix@), 1, 256, -1);
        assert forall|k: int| 0 <= k < values@.len() implies 1 <= #[trigger] values@[k] < 256 by {
            assert(size_ints(values@)[k] == values@[k] as int);
        }
    }
    let mut keys: Vec<Vec<u64>> = Vec::with_capacity(values.len());
    let mut j: usize = 0;
    while j < values.len()
        invariant
            j <= values@.len(),
            keys@.len() == j,
            forall|k: int| 0 <= k < values@.len() ==> 1 <= #[trigger] values@[k] < 256,
            forall|k: int|
                0 <= k < j ==> (#[trigger] keys@[k])@ == occurrence_keys(prefix@)(
                    values@[k] as int,
                ),
        decreases values@.len() - j,
    {
        let count: usize = count_occurrences(prefix, values[j] as u8);
        let rank: u64 = u64::MAX - count as u64;
        let key: Vec<u64> = vec![rank];
        assert(key@ =~= occurrence_keys(prefix@)(values@[j as int] as int));
        keys.push(key);
        j += 1;
    }
    let order = stable_order(&keys);
    proof {
        assert forall|k: int| 0 <= k < distinct.len() implies (#[trigger] keys@[k])@
            == occurrence_keys(prefix@)(distinct[k]) by {
            assert(size_ints(values@)[k] == values@[k] as int);
        }
        assert(size_ints(values@).len() == values@.len());
        lemma_sorted_by_is_arranged(distinct, keys@, order@, occurrence_keys(prefix@));
    }
    let ghost sorted = repeated_values(prefix@);
    let ghost part = repeated_value_part(prefix@);
    assert(sorted == arranged(distinct, order@));
    let mut specs: Vec<ReductionSpec> = Vec::with_capacity(order.len());
    assert(spec_models(specs@) =~= Seq::<SpecModel>::empty());
    let mut n: usize = 0;
    while n < order.len()
        invariant
            n <= order@.len(),
            sorted == arranged(distinct, order@),
            sorted == repeated_values(prefix@),
            part == repeated_value_part(prefix@),
            size_ints(values@) == distinct,
            forall|k: int| 0 <= k < order@.len() ==> #[trigger] order@[k] < values@.len(),
            forall|k: int| 0 <= k < values@.len() ==> 1 <= #[trigger] values@[k] < 256,
            spec_models(specs@) == flat(n as nat, part),
        decreases order@.len() - n,
    {
        let ghost listed = spec_models(specs@);
        let value: usize = values[order[n]];
        assert(sorted[n as int] == distinct[order@[n as int] as int]);
        assert(size_ints(values@)[order@[n as int] as int] == value as int);
        push_spec(&mut specs, ReductionOp::zero_repeated(value as u8), 0);
        n += 1;
        assert(spec_models(specs@) =~= listed + part(n - 1));
    }
    specs
}

/// `value` is simpler than `current`: it has fewer bytes that are not zero, or as many and comes
/// before it.
pub open spec fn simpler(value: Seq<u8>, current: Seq<u8>) -> bool {
    nonzero(value) < nonzero(current) || (nonzero(value) == nonzero(current) && bytes_less(
        value,
        current,
    ))
}

/// `value` is simpler than `current`.
pub fn replacement_simplifies(current: &[u8], value: &[u8]) -> (simplifies: bool)
    ensures
        simplifies == simpler(value@, current@),
{
    let current_nonzero: usize = nonzero_count(current);
    let value_nonzero: usize = nonzero_count(value);
    value_nonzero < current_nonzero || (value_nonzero == current_nonzero && less_bytes(
        value,
        current,
    ))
}

/// One dictionary value, in each place where it is simpler.
pub open spec fn dictionary_starts(
    prefix: Seq<u8>,
    value: Seq<u8>,
    index: int,
) -> spec_fn(int) -> Seq<SpecModel> {
    |start: int|
        one_if(
            simpler(value, prefix.subrange(start, start + value.len())),
            replace_dictionary_op(start as usize, value.len() as usize, index as usize),
        )
}

/// Each dictionary value.
pub open spec fn dictionary_values(
    prefix: Seq<u8>,
    dictionary: Seq<Seq<u8>>,
) -> spec_fn(int) -> Seq<SpecModel> {
    |d: int|
        if dictionary[d].len() == 0 || dictionary[d].len() > prefix.len() {
            Seq::empty()
        } else {
            flat(
                (prefix.len() - dictionary[d].len() + 1) as nat,
                dictionary_starts(prefix, dictionary[d], d),
            )
        }
}

/// Dictionary values in place of what is less simple.
pub open spec fn dictionary_list(prefix: Seq<u8>, dictionary: Seq<Seq<u8>>) -> Seq<SpecModel> {
    flat(dictionary.len(), dictionary_values(prefix, dictionary))
}

/// Append one dictionary value in each place where it is simpler.
fn push_dictionary_value(
    specs: &mut Vec<ReductionSpec>,
    prefix: &Vec<u8>,
    value: &Vec<u8>,
    index: usize,
)
    requires
        0 < value@.len() <= prefix@.len(),
    ensures
        spec_models(final(specs)@) == spec_models(old(specs)@) + flat(
            (prefix@.len() - value@.len() + 1) as nat,
            dictionary_starts(prefix@, value@, index as int),
        ),
{
    let ghost before = spec_models(specs@);
    let ghost part = dictionary_starts(prefix@, value@, index as int);
    let total: usize = prefix.len();
    let len: usize = value.len();
    let mut start: usize = 0;
    assert(before + flat(0, part) =~= before);
    while start <= total - len
        invariant
            total == prefix@.len(),
            len == value@.len(),
            0 < len <= total,
            start <= total - len + 1,
            part == dictionary_starts(prefix@, value@, index as int),
            spec_models(specs@) == before + flat(start as nat, part),
        decreases total - start,
    {
        let ghost listed = spec_models(specs@);
        if replacement_simplifies(
            slice_subrange(prefix.as_slice(), start, start + len),
            value.as_slice(),
        ) {
            push_spec(specs, ReductionOp::replace_dictionary(start, len, index), 0);
        }
        start += 1;
        assert(spec_models(specs@) =~= listed + part(start - 1));
        assert(listed + part(start - 1) =~= before + flat(start as nat, part));
    }
}

/// Dictionary values in place of what is less simple.
pub fn dictionary_repair_specs(prefix: &Vec<u8>, dictionary: &Vec<Vec<u8>>) -> (specs: Vec<
    ReductionSpec,
>)
    ensures
        spec_models(specs@) == dictionary_list(prefix@, byte_lists(dictionary@)),
{
    let mut specs: Vec<ReductionSpec> = Vec::new();
    assert(spec_models(specs@) =~= Seq::<SpecModel>::empty());
    let ghost lists = byte_lists(dictionary@);
    let ghost part = dictionary_values(prefix@, lists);
    let mut d: usize = 0;
    while d < dictionary.len()
        invariant
            d <= dictionary@.len(),
            lists == byte_lists(dictionary@),
            part == dictionary_values(prefix@, lists),
            spec_models(specs@) == flat(d as nat, part),
        decreases dictionary@.len() - d,
    {
        let ghost listed = spec_models(specs@);
        let len: usize = dictionary[d].len();
        assert(lists[d as int] == dictionary@[d as int]@);
        if len != 0 && len <= prefix.len() {
            push_dictionary_value(&mut specs, prefix, &dictionary[d], d);
        }
        d += 1;
        assert(spec_models(specs@) =~= listed + part(d - 1));
    }
    specs
}

} // verus!
