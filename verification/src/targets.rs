//! The sizes, places and values that reductions aim at.

use crate::mutation::{le_bytes, lemma_le_bytes};
use crate::trace::{span_len, ScalarSpan};
use vstd::prelude::*;

verus! {

/// The numbers of a list of sizes.
pub open spec fn size_ints(list: Seq<usize>) -> Seq<int> {
    list.map_values(|value: usize| value as int)
}

/// The numbers of a list of words.
pub open spec fn word_ints(list: Seq<u64>) -> Seq<int> {
    list.map_values(|value: u64| value as int)
}

/// The numbers of a list of ranks.
pub open spec fn rank_ints(list: Seq<u128>) -> Seq<int> {
    list.map_values(|value: u128| value as int)
}

/// The candidates from `lowest` to below `limit` other than `except`, each where it first occurs.
pub open spec fn kept_once(candidates: Seq<int>, lowest: int, limit: int, except: int) -> Seq<int>
    decreases candidates.len(),
{
    if candidates.len() == 0 {
        Seq::empty()
    } else {
        let kept = kept_once(candidates.drop_last(), lowest, limit, except);
        let last = candidates.last();
        if lowest <= last < limit && last != except && !kept.contains(last) {
            kept.push(last)
        } else {
            kept
        }
    }
}

/// Every candidate in the bounds is kept.
pub(crate) proof fn lemma_kept_once_keeps(
    candidates: Seq<int>,
    lowest: int,
    limit: int,
    except: int,
    place: int,
)
    requires
        0 <= place < candidates.len(),
        lowest <= candidates[place] < limit,
        candidates[place] != except,
    ensures
        kept_once(candidates, lowest, limit, except).contains(candidates[place]),
    decreases candidates.len(),
{
    let kept = kept_once(candidates.drop_last(), lowest, limit, except);
    let all = kept_once(candidates, lowest, limit, except);
    if place < candidates.len() - 1 {
        lemma_kept_once_keeps(candidates.drop_last(), lowest, limit, except, place);
        let i = choose|i: int| 0 <= i < kept.len() && kept[i] == candidates[place];
        assert(all[i] == candidates[place]);
    } else if !kept.contains(candidates.last()) {
        assert(all[kept.len() as int] == candidates[place]);
    }
}

/// What is kept is in the bounds, and nothing of it occurs twice.
pub proof fn kept_once_is_bounded(candidates: Seq<int>, lowest: int, limit: int, except: int)
    ensures
        kept_once(candidates, lowest, limit, except).no_duplicates(),
        forall|i: int|
            0 <= i < kept_once(candidates, lowest, limit, except).len() ==> {
                &&& lowest <= #[trigger] kept_once(candidates, lowest, limit, except)[i] < limit
                &&& kept_once(candidates, lowest, limit, except)[i] != except
            },
    decreases candidates.len(),
{
    if candidates.len() > 0 {
        kept_once_is_bounded(candidates.drop_last(), lowest, limit, except);
        let kept = kept_once(candidates.drop_last(), lowest, limit, except);
        let all = kept_once(candidates, lowest, limit, except);
        let last = candidates.last();
        assert forall|i: int, j: int| 0 <= i < all.len() && 0 <= j < all.len() && i != j implies all[i]
            != all[j] by {
            if i == kept.len() {
                assert(all[i] == last && all[j] == kept[j]);
                assert(kept.contains(kept[j]));
            } else if j == kept.len() {
                assert(all[j] == last && all[i] == kept[i]);
                assert(kept.contains(kept[i]));
            }
        }
    }
}

/// The sizes from `lowest` to below `limit`, each where it first occurs.
pub fn keep_sizes(candidates: &Vec<usize>, lowest: usize, limit: usize) -> (kept: Vec<usize>)
    ensures
        size_ints(kept@) == kept_once(size_ints(candidates@), lowest as int, limit as int, -1),
{
    let mut kept: Vec<usize> = Vec::new();
    let ghost all = size_ints(candidates@);
    let mut i: usize = 0;
    assert(all.take(0) =~= Seq::<int>::empty());
    assert(size_ints(kept@) =~= Seq::<int>::empty());
    while i < candidates.len()
        invariant
            i <= candidates@.len(),
            all == size_ints(candidates@),
            size_ints(kept@) == kept_once(all.take(i as int), lowest as int, limit as int, -1),
        decreases candidates@.len() - i,
    {
        proof {
            assert(all.take(i + 1).drop_last() =~= all.take(i as int));
            assert(all.take(i + 1).last() == all[i as int]);
        }
        let value: usize = candidates[i];
        if lowest <= value && value < limit && !has_size(&kept, value) {
            let ghost before = kept@;
            kept.push(value);
            assert(size_ints(kept@) =~= size_ints(before).push(value as int));
        }
        i += 1;
    }
    assert(all.take(all.len() as int) =~= all);
    kept
}

/// `value` is in the list.
pub fn has_size(list: &Vec<usize>, value: usize) -> (found: bool)
    ensures
        found == list@.contains(value),
        found == size_ints(list@).contains(value as int),
{
    let mut i: usize = 0;
    while i < list.len()
        invariant
            i <= list@.len(),
            forall|k: int| 0 <= k < i ==> list@[k] != value,
        decreases list@.len() - i,
    {
        if list[i] == value {
            assert(list@[i as int] == value);
            assert(size_ints(list@)[i as int] == value);
            return true;
        }
        i += 1;
    }
    proof {
        if size_ints(list@).contains(value as int) {
            let k = choose|k: int|
                0 <= k < size_ints(list@).len() && size_ints(list@)[k] == value as int;
            assert(list@[k] == value);
        }
    }
    false
}

/// The words up to `highest`, each where it first occurs.
pub fn keep_words(candidates: &Vec<u64>, highest: u64) -> (kept: Vec<u64>)
    ensures
        word_ints(kept@) == kept_once(word_ints(candidates@), 0, highest + 1, -1),
{
    let mut kept: Vec<u64> = Vec::new();
    let ghost all = word_ints(candidates@);
    let mut i: usize = 0;
    assert(all.take(0) =~= Seq::<int>::empty());
    assert(word_ints(kept@) =~= Seq::<int>::empty());
    while i < candidates.len()
        invariant
            i <= candidates@.len(),
            all == word_ints(candidates@),
            word_ints(kept@) == kept_once(all.take(i as int), 0, highest + 1, -1),
        decreases candidates@.len() - i,
    {
        proof {
            assert(all.take(i + 1).drop_last() =~= all.take(i as int));
            assert(all.take(i + 1).last() == all[i as int]);
        }
        let value: u64 = candidates[i];
        if value <= highest && !has_word(&kept, value) {
            let ghost before = kept@;
            kept.push(value);
            assert(word_ints(kept@) =~= word_ints(before).push(value as int));
        }
        i += 1;
    }
    assert(all.take(all.len() as int) =~= all);
    kept
}

fn has_word(list: &Vec<u64>, value: u64) -> (found: bool)
    ensures
        found == word_ints(list@).contains(value as int),
{
    let mut i: usize = 0;
    while i < list.len()
        invariant
            i <= list@.len(),
            forall|k: int| 0 <= k < i ==> list@[k] != value,
        decreases list@.len() - i,
    {
        if list[i] == value {
            assert(word_ints(list@)[i as int] == value);
            return true;
        }
        i += 1;
    }
    false
}

/// The ranks that the scalar can have, other than `current`, each where it first occurs.
fn keep_ranks(candidates: &Vec<u128>, scalar: &ScalarSpan, current: u128) -> (kept: Vec<u128>)
    ensures
        rank_ints(kept@) == kept_once(
            rank_ints(candidates@),
            0,
            rank_limit(*scalar),
            current as int,
        ),
{
    let mut kept: Vec<u128> = Vec::new();
    let ghost all = rank_ints(candidates@);
    let mut i: usize = 0;
    assert(all.take(0) =~= Seq::<int>::empty());
    assert(rank_ints(kept@) =~= Seq::<int>::empty());
    while i < candidates.len()
        invariant
            i <= candidates@.len(),
            all == rank_ints(candidates@),
            rank_ints(kept@) == kept_once(
                all.take(i as int),
                0,
                rank_limit(*scalar),
                current as int,
            ),
        decreases candidates@.len() - i,
    {
        proof {
            assert(all.take(i + 1).drop_last() =~= all.take(i as int));
            assert(all.take(i + 1).last() == all[i as int]);
        }
        let value: u128 = candidates[i];
        if value != current && scalar_target_allowed(scalar, value) && !has_rank(&kept, value) {
            let ghost before = kept@;
            kept.push(value);
            assert(rank_ints(kept@) =~= rank_ints(before).push(value as int));
        }
        i += 1;
    }
    assert(all.take(all.len() as int) =~= all);
    kept
}

fn has_rank(list: &Vec<u128>, value: u128) -> (found: bool)
    ensures
        found == rank_ints(list@).contains(value as int),
{
    let mut i: usize = 0;
    while i < list.len()
        invariant
            i <= list@.len(),
            forall|k: int| 0 <= k < i ==> list@[k] != value,
        decreases list@.len() - i,
    {
        if list[i] == value {
            assert(rank_ints(list@)[i as int] == value);
            return true;
        }
        i += 1;
    }
    false
}

/// The numbers from 0 to below `n`.
pub open spec fn counting(n: nat) -> Seq<int> {
    Seq::new(n, |i: int| i)
}

/// 256 to the power `width`.
pub open spec fn pow256(width: nat) -> int
    decreases width,
{
    if width == 0 {
        1
    } else {
        256 * pow256((width - 1) as nat)
    }
}

/// Number of values of a `u128`.
pub open spec fn all_ranks() -> int {
    0x1_0000_0000_0000_0000_0000_0000_0000_0000int
}

/// The ranks of the scalar are below this.
pub open spec fn rank_limit(scalar: ScalarSpan) -> int {
    let by_span = if scalar.span == 0 {
        all_ranks()
    } else {
        scalar.span as int
    };
    let width = span_len(scalar.start, scalar.end);
    let by_width = if width >= 16 {
        all_ranks()
    } else {
        pow256(width as nat)
    };
    if by_span < by_width {
        by_span
    } else {
        by_width
    }
}

pub(crate) proof fn lemma_pow256()
    ensures
        pow256(0) == 1,
        pow256(1) == 0x100,
        pow256(2) == 0x1_0000,
        pow256(4) == 0x1_0000_0000,
        pow256(8) == 0x1_0000_0000_0000_0000,
        pow256(16) == all_ranks(),
{
    reveal_with_fuel(pow256, 17);
}

pub(crate) proof fn lemma_pow256_grows(a: nat, b: nat)
    requires
        a <= b,
    ensures
        0 < pow256(a) <= pow256(b),
    decreases b,
{
    if b > 0 {
        if a < b {
            lemma_pow256_grows(a, (b - 1) as nat);
        } else {
            lemma_pow256_grows((a - 1) as nat, (b - 1) as nat);
        }
    }
}

/// The scalar can have the rank `target`.
pub fn scalar_target_allowed(scalar: &ScalarSpan, target: u128) -> (allowed: bool)
    ensures
        allowed == (target < rank_limit(*scalar)),
{
    if scalar.span != 0 && target >= scalar.span {
        return false;
    }
    target_fits_width(target, scalar.len())
}

/// `target` takes at most `width` bytes.
pub fn target_fits_width(target: u128, width: usize) -> (fits: bool)
    ensures
        fits == (width >= 16 || target < pow256(width as nat)),
{
    if width >= 16 {
        return true;
    }
    let mut limit: u128 = 1;
    let mut i: usize = 0;
    while i < width
        invariant
            i <= width < 16,
            limit == pow256(i as nat),
        decreases width - i,
    {
        proof {
            lemma_pow256();
            lemma_pow256_grows((i + 1) as nat, 15);
            reveal_with_fuel(pow256, 17);
        }
        limit = limit * 256;
        i += 1;
    }
    target < limit
}

/// The number that the bytes stand for, lowest byte first.
pub open spec fn le_value(bytes: Seq<u8>) -> int
    decreases bytes.len(),
{
    if bytes.len() == 0 {
        0
    } else {
        bytes[0] + 256 * le_value(bytes.skip(1))
    }
}

pub(crate) proof fn lemma_le_value_bound(bytes: Seq<u8>)
    ensures
        0 <= le_value(bytes) < pow256(bytes.len()),
    decreases bytes.len(),
{
    if bytes.len() > 0 {
        lemma_le_value_bound(bytes.skip(1));
    }
}

/// The bytes of the number zero are zeros.
pub(crate) proof fn lemma_le_value_zero(bytes: Seq<u8>, i: int)
    requires
        le_value(bytes) == 0,
        0 <= i < bytes.len(),
    ensures
        bytes[i] == 0,
    decreases bytes.len(),
{
    lemma_le_value_bound(bytes.skip(1));
    if i > 0 {
        lemma_le_value_zero(bytes.skip(1), i - 1);
        assert(bytes.skip(1)[i - 1] == bytes[i]);
    }
}

/// A number written in as many bytes as it needs is read back.
pub proof fn le_round_trips(value: int, width: nat)
    requires
        0 <= value < pow256(width),
    ensures
        le_value(le_bytes(value, width)) == value,
    decreases width,
{
    if width > 0 {
        let bytes = le_bytes(value, width);
        assert(bytes[0] == value % 256);
        assert(bytes.skip(1) =~= le_bytes(value / 256, (width - 1) as nat));
        assert(value / 256 < pow256((width - 1) as nat)) by (nonlinear_arith)
            requires
                value < 256 * pow256((width - 1) as nat),
        ;
        le_round_trips(value / 256, (width - 1) as nat);
    } else {
        lemma_le_bytes(value, width);
    }
}

/// The number in `start..end`, lowest byte first.
pub fn read_le(bytes: &Vec<u8>, start: usize, end: usize) -> (value: u128)
    requires
        start <= end <= bytes@.len(),
        end - start <= 16,
    ensures
        value == le_value(bytes@.subrange(start as int, end as int)),
{
    let mut value: u128 = 0;
    let mut i: usize = end;
    assert(bytes@.subrange(end as int, end as int) =~= Seq::<u8>::empty());
    while i > start
        invariant
            start <= i <= end <= bytes@.len(),
            end - start <= 16,
            value == le_value(bytes@.subrange(i as int, end as int)),
        decreases i,
    {
        let ghost shorter = bytes@.subrange(i as int, end as int);
        let ghost longer = bytes@.subrange(i - 1, end as int);
        proof {
            assert(longer.skip(1) =~= shorter);
            lemma_le_value_bound(longer);
            lemma_pow256();
            lemma_pow256_grows(longer.len(), 16);
        }
        i -= 1;
        value = value * 256 + bytes[i] as u128;
    }
    value
}

/// The word in `start..end`, lowest byte first.
pub fn read_le_word(bytes: &Vec<u8>, start: usize, end: usize) -> (value: u64)
    requires
        start <= end <= bytes@.len(),
        end - start <= 8,
    ensures
        value == le_value(bytes@.subrange(start as int, end as int)),
{
    let value: u128 = read_le(bytes, start, end);
    proof {
        let word = bytes@.subrange(start as int, end as int);
        lemma_le_value_bound(word);
        lemma_pow256();
        lemma_pow256_grows(word.len(), 8);
    }
    value as u64
}

/// The largest word in `width` bytes, where three bytes count as four.
pub open spec fn max_word_value_spec(width: usize) -> u64 {
    if width == 0 {
        0
    } else if width == 1 {
        0xff
    } else if width == 2 {
        0xffff
    } else if width <= 4 {
        0xffff_ffff
    } else {
        u64::MAX
    }
}

/// The largest word in `width` bytes, where three bytes count as four.
pub fn max_word_value(width: usize) -> (max: u64)
    ensures
        max == max_word_value_spec(width),
{
    if width == 0 {
        0
    } else if width == 1 {
        0xff
    } else if width == 2 {
        0xffff
    } else if width <= 4 {
        0xffff_ffff
    } else {
        u64::MAX
    }
}

/// `a - b`, or zero.
pub open spec fn less_by(a: int, b: int) -> int {
    if a >= b {
        a - b
    } else {
        0
    }
}

/// Sizes of the parts of `len`, largest first, all of them smaller than `len`.
pub open spec fn shrink_sizes_spec(len: int) -> Seq<int> {
    kept_once(
        seq![
            len / 2,
            len / 4,
            len / 8,
            1024,
            512,
            256,
            128,
            64,
            32,
            16,
            8,
            4,
            3,
            2,
            1,
        ],
        1,
        len,
        -1,
    )
}

/// Sizes of the parts of `len`, largest first, all of them smaller than `len`.
pub fn shrink_sizes(len: usize) -> (sizes: Vec<usize>)
    ensures
        size_ints(sizes@) == shrink_sizes_spec(len as int),
{
    let candidates: Vec<usize> = vec![
        len / 2,
        len / 4,
        len / 8,
        1024,
        512,
        256,
        128,
        64,
        32,
        16,
        8,
        4,
        3,
        2,
        1,
    ];
    assert(size_ints(candidates@) =~= seq![
        len as int / 2,
        len as int / 4,
        len as int / 8,
        1024,
        512,
        256,
        128,
        64,
        32,
        16,
        8,
        4,
        3,
        2,
        1,
    ]);
    keep_sizes(&candidates, 1, len)
}

/// The same sizes after `len` itself.
pub open spec fn shrink_sizes_including_full_spec(len: int) -> Seq<int> {
    if len > 0 {
        seq![len] + shrink_sizes_spec(len)
    } else {
        shrink_sizes_spec(len)
    }
}

/// The same sizes after `len` itself.
pub fn shrink_sizes_including_full(len: usize) -> (sizes: Vec<usize>)
    ensures
        size_ints(sizes@) == shrink_sizes_including_full_spec(len as int),
{
    let mut sizes = shrink_sizes(len);
    if len > 0 {
        let ghost before = sizes@;
        sizes.insert(0, len);
        assert(size_ints(sizes@) =~= seq![len as int] + size_ints(before));
    }
    sizes
}

/// Numbers of items that are worth keeping.
pub open spec fn sequence_keep_sizes_spec(len: int) -> Seq<int> {
    kept_once(seq![1, 2, 3, 4, 8, 16, len / 4, len / 2, less_by(len, 1)], 1, len, -1)
}

/// Numbers of items that are worth keeping.
pub fn sequence_keep_sizes(len: usize) -> (sizes: Vec<usize>)
    ensures
        size_ints(sizes@) == sequence_keep_sizes_spec(len as int),
{
    let candidates: Vec<usize> = vec![1, 2, 3, 4, 8, 16, len / 4, len / 2, len.saturating_sub(1)];
    assert(size_ints(candidates@) =~= seq![
        1,
        2,
        3,
        4,
        8,
        16,
        len as int / 4,
        len as int / 2,
        less_by(len as int, 1),
    ]);
    keep_sizes(&candidates, 1, len)
}

/// Widths of the words at the start of a draw of `len` bytes.
pub open spec fn draw_widths_spec(len: int) -> Seq<int> {
    kept_once(
        seq![
            if len < 8 {
                len
            } else {
                8
            },
            4,
            2,
            1,
        ],
        1,
        if len < 8 {
            len + 1
        } else {
            9
        },
        -1,
    )
}

/// Widths of the words at the start of a draw of `len` bytes.
pub fn draw_widths(len: usize) -> (widths: Vec<usize>)
    ensures
        size_ints(widths@) == draw_widths_spec(len as int),
{
    let widest: usize = if len < 8 {
        len
    } else {
        8
    };
    let candidates: Vec<usize> = vec![widest, 4, 2, 1];
    assert(size_ints(candidates@) =~= seq![widest as int, 4, 2, 1]);
    keep_sizes(&candidates, 1, widest + 1)
}

/// Every place from `start` on in steps of `width`, below `len`.
pub open spec fn steps(start: int, width: int, len: int) -> Seq<int>
    decreases less_by(len, start),
{
    if width <= 0 || start >= len {
        Seq::empty()
    } else {
        seq![start] + steps(start + width, width, len)
    }
}

/// Places where blocks of `width` start among `len`: one after the other, then half a block
/// further, then 1, the middle, and the last.
pub open spec fn block_starts_spec(len: int, width: int) -> Seq<int> {
    if len == 0 || width == 0 {
        Seq::empty()
    } else {
        kept_once(
            steps(0, width, len) + (if width > 1 {
                steps(width / 2, width, len)
            } else {
                Seq::empty()
            }) + seq![1, len / 2, less_by(len, width)],
            0,
            len,
            -1,
        )
    }
}

/// Append every place from `start` on in steps of `width`, below `len`.
pub fn push_steps(places: &mut Vec<usize>, start: usize, width: usize, len: usize)
    requires
        width > 0,
    ensures
        size_ints(final(places)@) == size_ints(old(places)@) + steps(
            start as int,
            width as int,
            len as int,
        ),
{
    let ghost before = size_ints(places@);
    let mut at: usize = start;
    assert(size_ints(places@) + steps(start as int, width as int, len as int) =~= before + steps(
        start as int,
        width as int,
        len as int,
    ));
    while at < len
        invariant
            width > 0,
            size_ints(places@) + steps(at as int, width as int, len as int) == before + steps(
                start as int,
                width as int,
                len as int,
            ),
        decreases len - at,
    {
        let ghost listed = size_ints(places@);
        let ghost here = at as int;
        places.push(at);
        assert(size_ints(places@) =~= listed.push(here));
        assert(listed.push(here) + steps(here + width, width as int, len as int) =~= listed + (
        seq![here] + steps(here + width, width as int, len as int)));
        if width >= len - at {
            assert(steps(here + width, width as int, len as int) =~= Seq::<int>::empty());
            assert(steps(len as int, width as int, len as int) =~= Seq::<int>::empty());
            at = len;
        } else {
            at = at + width;
        }
    }
    assert(size_ints(places@) + Seq::<int>::empty() =~= size_ints(places@));
}

/// Places where blocks of `width` start among `len`.
pub fn block_starts(len: usize, width: usize) -> (starts: Vec<usize>)
    ensures
        size_ints(starts@) == block_starts_spec(len as int, width as int),
{
    if len == 0 || width == 0 {
        let starts: Vec<usize> = Vec::new();
        assert(size_ints(starts@) =~= Seq::<int>::empty());
        return starts;
    }
    let mut candidates: Vec<usize> = Vec::new();
    assert(size_ints(candidates@) =~= Seq::<int>::empty());
    push_steps(&mut candidates, 0, width, len);
    let ghost first = steps(0, width as int, len as int);
    assert(size_ints(candidates@) =~= first);
    let ghost second = if width > 1 {
        steps(width as int / 2, width as int, len as int)
    } else {
        Seq::empty()
    };
    if width > 1 {
        push_steps(&mut candidates, width / 2, width, len);
    }
    assert(size_ints(candidates@) =~= first + second);
    let ghost listed = candidates@;
    candidates.push(1);
    candidates.push(len / 2);
    candidates.push(len.saturating_sub(width));
    assert(size_ints(candidates@) =~= size_ints(listed) + seq![
        1int,
        len as int / 2,
        less_by(len as int, width as int),
    ]);
    assert(size_ints(candidates@) =~= first + second + seq![
        1int,
        len as int / 2,
        less_by(len as int, width as int),
    ]);
    keep_sizes(&candidates, 0, len)
}

/// Ranks that are tried for one scalar.
pub open spec fn scalar_base() -> Seq<int> {
    seq![
        0,
        1,
        2,
        3,
        4,
        5,
        6,
        7,
        8,
        9,
        10,
        11,
        12,
        13,
        14,
        15,
        16,
        31,
        32,
        63,
        64,
        127,
        128,
        255,
        256,
        511,
        512,
        1023,
        1024,
    ]
}

/// Ranks that are tried for several scalars at once: single digits end at 9 or 10.
pub open spec fn scalar_group_base() -> Seq<int> {
    seq![
        9,
        10,
        0,
        1,
        2,
        3,
        4,
        5,
        6,
        7,
        8,
        11,
        12,
        13,
        14,
        15,
        16,
        31,
        32,
        63,
        64,
        127,
        128,
        255,
        256,
        511,
        512,
        1023,
        1024,
    ]
}

/// Ranks that are tried for the scalar, which has the rank `current`.
pub open spec fn scalar_targets_spec(scalar: ScalarSpan, current: int) -> Seq<int> {
    kept_once(
        scalar_base() + seq![current / 2, current / 4, less_by(current, 1)],
        0,
        rank_limit(scalar),
        current,
    )
}

/// Ranks that are tried for the scalar, which has the rank `current`.
pub fn scalar_targets(scalar: &ScalarSpan, current: u128) -> (targets: Vec<u128>)
    ensures
        rank_ints(targets@) == scalar_targets_spec(*scalar, current as int),
{
    let candidates: Vec<u128> = vec![
        0,
        1,
        2,
        3,
        4,
        5,
        6,
        7,
        8,
        9,
        10,
        11,
        12,
        13,
        14,
        15,
        16,
        31,
        32,
        63,
        64,
        127,
        128,
        255,
        256,
        511,
        512,
        1023,
        1024,
        current / 2,
        current / 4,
        current.saturating_sub(1),
    ];
    assert(rank_ints(candidates@) =~= scalar_base() + seq![
        current as int / 2,
        current as int / 4,
        less_by(current as int, 1),
    ]);
    keep_ranks(&candidates, scalar, current)
}

/// Ranks that are tried for a group of scalars that all have the rank `current`.
pub open spec fn scalar_group_targets_spec(scalar: ScalarSpan, current: int) -> Seq<int> {
    kept_once(
        scalar_group_base() + seq![current / 2, current / 4, less_by(current, 1)],
        0,
        rank_limit(scalar),
        current,
    )
}

/// Ranks that are tried for a group of scalars that all have the rank `current`.
pub fn scalar_group_targets(scalar: &ScalarSpan, current: u128) -> (targets: Vec<u128>)
    ensures
        rank_ints(targets@) == scalar_group_targets_spec(*scalar, current as int),
{
    let mut candidates = scalar_group_base_targets();
    let ghost base = candidates@;
    candidates.push(current / 2);
    candidates.push(current / 4);
    candidates.push(current.saturating_sub(1));
    assert(rank_ints(candidates@) =~= rank_ints(base) + seq![
        current as int / 2,
        current as int / 4,
        less_by(current as int, 1),
    ]);
    keep_ranks(&candidates, scalar, current)
}

fn scalar_group_base_targets() -> (targets: Vec<u128>)
    ensures
        rank_ints(targets@) == scalar_group_base(),
{
    let targets: Vec<u128> = vec![
        9,
        10,
        0,
        1,
        2,
        3,
        4,
        5,
        6,
        7,
        8,
        11,
        12,
        13,
        14,
        15,
        16,
        31,
        32,
        63,
        64,
        127,
        128,
        255,
        256,
        511,
        512,
        1023,
        1024,
    ];
    assert(rank_ints(targets@) =~= scalar_group_base());
    targets
}

/// Ranks that one scalar of a cohort is lowered to, where the others follow by the same amount.
pub open spec fn scalar_common_offset_targets_spec(scalar: ScalarSpan, current: int) -> Seq<int> {
    kept_once(
        scalar_group_base() + seq![current / 2, current / 4, current / 8, less_by(current, 1)],
        0,
        rank_limit(scalar),
        current,
    )
}

/// Ranks that one scalar of a cohort is lowered to, where the others follow by the same amount.
pub fn scalar_common_offset_targets(scalar: &ScalarSpan, current: u128) -> (targets: Vec<u128>)
    ensures
        rank_ints(targets@) == scalar_common_offset_targets_spec(*scalar, current as int),
{
    let mut candidates = scalar_group_base_targets();
    let ghost base = candidates@;
    candidates.push(current / 2);
    candidates.push(current / 4);
    candidates.push(current / 8);
    candidates.push(current.saturating_sub(1));
    assert(rank_ints(candidates@) =~= rank_ints(base) + seq![
        current as int / 2,
        current as int / 4,
        current as int / 8,
        less_by(current as int, 1),
    ]);
    keep_ranks(&candidates, scalar, current)
}

/// Words that a length of `width` bytes is set to, none of them above `word`.
pub open spec fn small_length_targets_spec(word: int, width: usize) -> Seq<int> {
    let max = max_word_value_spec(width) as int;
    kept_once(
        counting(17) + seq![31, 32, 63, 64, 127, 128, 255, word / 2, word / 4, less_by(word, 1)],
        0,
        if word < max {
            word + 1
        } else {
            max + 1
        },
        -1,
    )
}

/// Words that a length of `width` bytes is set to, none of them above `word`.
pub fn small_length_targets(word: u64, width: usize) -> (targets: Vec<u64>)
    ensures
        word_ints(targets@) == small_length_targets_spec(word as int, width),
{
    let candidates: Vec<u64> = vec![
        0,
        1,
        2,
        3,
        4,
        5,
        6,
        7,
        8,
        9,
        10,
        11,
        12,
        13,
        14,
        15,
        16,
        31,
        32,
        63,
        64,
        127,
        128,
        255,
        word / 2,
        word / 4,
        word.saturating_sub(1),
    ];
    assert(word_ints(candidates@) =~= counting(17) + seq![
        31,
        32,
        63,
        64,
        127,
        128,
        255,
        word as int / 2,
        word as int / 4,
        less_by(word as int, 1),
    ]);
    let max = max_word_value(width);
    keep_words(
        &candidates,
        if word < max {
            word
        } else {
            max
        },
    )
}

/// Words below `word` that fit in `width` bytes.
pub open spec fn smaller_word_targets_spec(word: int, width: usize) -> Seq<int> {
    let max = max_word_value_spec(width) as int;
    if word == 0 {
        Seq::empty()
    } else {
        kept_once(
            counting(33) + seq![
                63,
                64,
                127,
                128,
                255,
                256,
                511,
                512,
                1023,
                1024,
                word / 2,
                word / 4,
                less_by(word, 1),
                less_by(word, 2),
                less_by(word, 4),
                less_by(word, 8),
                less_by(word, 16),
                less_by(word, 32),
                less_by(word, 64),
            ],
            0,
            if word <= max {
                word
            } else {
                max + 1
            },
            -1,
        )
    }
}

/// Words below `word` that fit in `width` bytes.
pub fn smaller_word_targets(word: u64, width: usize) -> (targets: Vec<u64>)
    ensures
        word_ints(targets@) == smaller_word_targets_spec(word as int, width),
{
    if word == 0 {
        let targets: Vec<u64> = Vec::new();
        assert(word_ints(targets@) =~= Seq::<int>::empty());
        return targets;
    }
    let mut candidates: Vec<u64> = Vec::new();
    let mut i: u64 = 0;
    assert(word_ints(candidates@) =~= counting(0));
    while i < 33
        invariant
            i <= 33,
            word_ints(candidates@) == counting(i as nat),
        decreases 33 - i,
    {
        let ghost before = candidates@;
        candidates.push(i);
        assert(word_ints(candidates@) =~= word_ints(before).push(i as int));
        i += 1;
        assert(word_ints(candidates@) =~= counting(i as nat));
    }
    let ghost base = candidates@;
    let more: Vec<u64> = vec![
        63,
        64,
        127,
        128,
        255,
        256,
        511,
        512,
        1023,
        1024,
        word / 2,
        word / 4,
        word.saturating_sub(1),
        word.saturating_sub(2),
        word.saturating_sub(4),
        word.saturating_sub(8),
        word.saturating_sub(16),
        word.saturating_sub(32),
        word.saturating_sub(64),
    ];
    assert(word_ints(more@) =~= seq![
        63,
        64,
        127,
        128,
        255,
        256,
        511,
        512,
        1023,
        1024,
        word as int / 2,
        word as int / 4,
        less_by(word as int, 1),
        less_by(word as int, 2),
        less_by(word as int, 4),
        less_by(word as int, 8),
        less_by(word as int, 16),
        less_by(word as int, 32),
        less_by(word as int, 64),
    ]);
    candidates.extend_from_slice(more.as_slice());
    assert(word_ints(candidates@) =~= word_ints(base) + word_ints(more@));
    let max = max_word_value(width);
    keep_words(
        &candidates,
        if word <= max {
            word - 1
        } else {
            max
        },
    )
}

/// Values below `byte`.
pub open spec fn smaller_byte_targets_spec(byte: int) -> Seq<int> {
    kept_once(
        seq![
            0,
            1,
            2,
            3,
            4,
            8,
            16,
            32,
            64,
            128,
            byte / 2,
            less_by(byte, 1),
            less_by(byte, 2),
            less_by(byte, 4),
            less_by(byte, 8),
            less_by(byte, 16),
        ],
        0,
        byte,
        -1,
    )
}

/// Values below `byte`.
pub fn smaller_byte_targets(byte: u8) -> (targets: Vec<usize>)
    ensures
        size_ints(targets@) == smaller_byte_targets_spec(byte as int),
        forall|i: int| 0 <= i < targets@.len() ==> #[trigger] targets@[i] < byte,
{
    let byte: usize = byte as usize;
    let candidates: Vec<usize> = vec![
        0,
        1,
        2,
        3,
        4,
        8,
        16,
        32,
        64,
        128,
        byte / 2,
        byte.saturating_sub(1),
        byte.saturating_sub(2),
        byte.saturating_sub(4),
        byte.saturating_sub(8),
        byte.saturating_sub(16),
    ];
    assert(size_ints(candidates@) =~= seq![
        0,
        1,
        2,
        3,
        4,
        8,
        16,
        32,
        64,
        128,
        byte as int / 2,
        less_by(byte as int, 1),
        less_by(byte as int, 2),
        less_by(byte as int, 4),
        less_by(byte as int, 8),
        less_by(byte as int, 16),
    ]);
    let targets = keep_sizes(&candidates, 0, byte);
    proof {
        kept_once_is_bounded(size_ints(candidates@), 0, byte as int, -1);
        assert forall|i: int| 0 <= i < targets@.len() implies #[trigger] targets@[i] < byte by {
            assert(size_ints(targets@)[i] == targets@[i]);
        }
    }
    targets
}

/// The key of a rank: the rank, or the largest word where it is larger.
pub open spec fn target_key_spec(target: int) -> u64 {
    if target <= u64::MAX {
        target as u64
    } else {
        u64::MAX
    }
}

/// The key of a rank: the rank, or the largest word where it is larger.
pub fn target_key(target: u128) -> (key: u64)
    ensures
        key == target_key_spec(target as int),
{
    if target <= u64::MAX as u128 {
        target as u64
    } else {
        u64::MAX
    }
}

} // verus!
