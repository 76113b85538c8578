//! Random rewrites of a byte path, in search of coverage or of a smaller path.

use crate::mutation::{
    byte_lists, mutated, within, ByteMutation, FirstByteAdjustment, MutationModel, ReplaceMode,
};
use crate::random::{
    draw_byte, draw_byte_in, draw_chance, draw_size, draw_u16_in, draw_u32_in, seeded,
};
use crate::targets::{
    counting, keep_words, kept_once, kept_once_is_bounded, le_value, lemma_kept_once_keeps,
    lemma_le_value_bound, lemma_le_value_zero, lemma_pow256, less_by, max_word_value,
    max_word_value_spec, read_le_word, word_ints,
};
use rand::rngs::SmallRng;
use vstd::prelude::*;
use vstd::slice::slice_subrange;

verus! {

/// Bytes at the edges of what programs tell apart.
pub open spec fn is_interesting(byte: u8) -> bool {
    seq![0u8, 1, 16, 31, 32, 63, 64, 127, 128, 255].contains(byte)
}

/// A byte up to 16, or an interesting one.
pub open spec fn is_small_or_interesting(byte: u8) -> bool {
    byte <= 16 || is_interesting(byte)
}

/// An interesting byte, by its place.
pub open spec fn interesting_spec(place: int) -> u8 {
    seq![0u8, 1, 16, 31, 32, 63, 64, 127, 128, 255][place]
}

/// An interesting byte, by its place.
pub fn interesting_at(place: usize) -> (byte: u8)
    requires
        place < 10,
    ensures
        byte == interesting_spec(place as int),
        is_interesting(byte),
{
    let bytes: [u8; 10] = [0, 1, 16, 31, 32, 63, 64, 127, 128, 255];
    let ghost all = seq![0u8, 1, 16, 31, 32, 63, 64, 127, 128, 255];
    assert(bytes@ =~= all);
    assert(all[place as int] == bytes@[place as int]);
    bytes[place]
}

fn interesting_byte(rng: &mut SmallRng) -> (byte: u8)
    ensures
        is_interesting(byte),
{
    interesting_at(draw_size(rng, 0, 9))
}

/// The least of three.
pub fn least_of(a: usize, b: usize, c: usize) -> (least: usize)
    ensures
        least <= a && least <= b && least <= c,
        least == a || least == b || least == c,
{
    let low: usize = if a < b {
        a
    } else {
        b
    };
    if low < c {
        low
    } else {
        c
    }
}

/// The index that the draws lead to: the first one, or the least of three.
pub fn drawn_index(first: bool, a: usize, b: usize, c: usize) -> (index: usize)
    ensures
        first ==> index == 0,
        !first ==> index <= a && index <= b && index <= c,
        !first ==> index == a || index == b || index == c,
{
    if first {
        0
    } else {
        least_of(a, b, c)
    }
}

/// An index below `len`, more often a small one; 0 where there is none. The draws decide which
/// one, by [`drawn_index`].
fn minimizing_index(len: usize, rng: &mut SmallRng) -> (index: usize)
    ensures
        len > 0 ==> index < len,
        len <= 1 ==> index == 0,
{
    if len <= 1 {
        return 0;
    }
    if draw_chance(rng, 1, 4) {
        return drawn_index(true, 0, 0, 0);
    }
    let a: usize = draw_size(rng, 0, len - 1);
    let b: usize = draw_size(rng, 0, len - 1);
    let c: usize = draw_size(rng, 0, len - 1);
    drawn_index(false, a, b, c)
}

/// 2 to the power `shift`.
pub open spec fn pow2_of(shift: nat) -> int
    decreases shift,
{
    if shift == 0 {
        1
    } else {
        2 * pow2_of((shift - 1) as nat)
    }
}

/// The largest power of two in `n` has this exponent.
pub fn floor_log2(n: usize) -> (shift: u32)
    requires
        n > 0,
    ensures
        pow2_of(shift as nat) <= n < 2 * pow2_of(shift as nat),
{
    let mut shift: u32 = 0;
    let mut power: usize = 1;
    while power <= n / 2
        invariant
            1 <= power <= n,
            power == pow2_of(shift as nat),
            shift < power,
        decreases n - power,
    {
        power = power * 2;
        assert(pow2_of((shift + 1) as nat) == power);
        if shift < u32::MAX {
            shift += 1;
        } else {
            proof {
                lemma_pow2_exceeds((shift + 1) as nat);
                lemma_pow2_32();
                lemma_pow2_grows(64, (shift + 1) as nat);
                assert(false);
            }
        }
    }
    shift
}

proof fn lemma_pow2_exceeds(shift: nat)
    ensures
        pow2_of(shift) > shift,
    decreases shift,
{
    if shift > 0 {
        lemma_pow2_exceeds((shift - 1) as nat);
    }
}

proof fn lemma_pow2_32()
    ensures
        pow2_of(64) == 0x1_0000_0000_0000_0000,
{
    reveal_with_fuel(pow2_of, 65);
}

proof fn lemma_pow2_grows(a: nat, b: nat)
    requires
        a <= b,
    ensures
        0 < pow2_of(a) <= pow2_of(b),
    decreases b,
{
    if b > 0 {
        if a < b {
            lemma_pow2_grows(a, (b - 1) as nat);
        } else {
            lemma_pow2_grows((a - 1) as nat, (b - 1) as nat);
        }
    }
}

/// The smaller of `limit` and 2 to the power `shift`.
pub fn power_up_to(limit: usize, shift: u32) -> (power: usize)
    requires
        limit > 0,
    ensures
        power == if pow2_of(shift as nat) < limit {
            pow2_of(shift as nat)
        } else {
            limit as int
        },
        1 <= power <= limit,
{
    let mut power: usize = 1;
    let mut i: u32 = 0;
    while i < shift
        invariant
            i <= shift,
            1 <= power <= limit,
            power == pow2_of(i as nat),
        decreases shift - i,
    {
        if power > limit / 2 {
            proof {
                assert(pow2_of((i + 1) as nat) == 2 * power);
                lemma_pow2_grows((i + 1) as nat, shift as nat);
            }
            return limit;
        }
        power = power * 2;
        i += 1;
    }
    power
}

/// An end behind `start`, more often a near one.
fn minimizing_end(len: usize, start: usize, rng: &mut SmallRng) -> (end: usize)
    requires
        start < len,
    ensures
        start < end <= len,
{
    let remaining: usize = len - start;
    let shift: u32 = draw_u32_in(rng, 0, floor_log2(remaining));
    let max_len: usize = power_up_to(remaining, shift);
    start + draw_size(rng, 1, max_len)
}

/// A range in `len`, not from its first byte on if `body_only` says so: where it starts, and how
/// long it is.
fn minimizing_chunk(len: usize, rng: &mut SmallRng, body_only: bool) -> (chunk: (usize, usize))
    requires
        len > 1,
    ensures
        chunk.1 >= 1,
        chunk.0 + chunk.1 <= len,
        body_only ==> chunk.0 >= 1,
{
    let start: usize = if body_only {
        1 + minimizing_index(len - 1, rng)
    } else {
        minimizing_index(len, rng)
    };
    let end: usize = minimizing_end(len, start, rng);
    (start, end - start)
}

/// How much the first byte is lowered when `removed` bytes go: at most by 16, and by no more than
/// their number.
fn leading_byte_subtraction(removed: usize, rng: &mut SmallRng) -> (amount: Option<u8>)
    ensures
        amount is None <==> removed == 0,
        amount matches Some(value) ==> 1 <= value <= 16 && value <= removed,
{
    let max: u8 = if removed < 16 {
        removed as u8
    } else {
        16
    };
    if max == 0 {
        None
    } else {
        Some(draw_byte_in(rng, 1, max))
    }
}

fn small_or_interesting_byte(rng: &mut SmallRng) -> (byte: u8)
    ensures
        is_small_or_interesting(byte),
{
    if draw_chance(rng, 3, 4) {
        draw_byte_in(rng, 0, 16)
    } else {
        interesting_byte(rng)
    }
}

/// A byte that is not larger; smaller, or zero, or the same by chance.
fn shrink_byte(byte: u8, rng: &mut SmallRng) -> (smaller: u8)
    ensures
        smaller <= byte,
{
    if byte == 0 {
        0
    } else if draw_chance(rng, 1, 2) {
        draw_byte_in(rng, 0, byte)
    } else {
        let most: u8 = if byte < 16 {
            byte
        } else {
            16
        };
        byte - draw_byte_in(rng, 1, most)
    }
}

/// A rewrite that may be chosen, and how much it counts before its weight.
#[derive(Debug, PartialEq, Eq)]
pub struct WeightedMutation {
    pub baseline: u64,
    pub mutator: ByteMutation,
}

/// What form a proposed rewrite has.
pub enum Slot {
    /// Delete a range behind the first byte, and lower the first byte.
    DeleteBody,
    /// Delete a range.
    DeleteChunk,
    /// Delete one byte.
    DeleteOne,
    /// Delete the start.
    Drain,
    /// Delete the end but keep a byte, and lower the first one.
    TruncateBody,
    /// Delete the end.
    TruncateAny,
    /// Fill a range with small or interesting bytes.
    FillSmall,
    /// Fill a range with zeros.
    FillZero,
    /// Fill a range with any bytes.
    FillAny,
    /// Lower a byte.
    ShrinkByte,
    /// Set a byte to a small or interesting one.
    SetSmall,
    /// Set a byte to zero.
    SetZero,
    /// Set a byte.
    SetAny,
    /// Flip a bit.
    FlipBit,
    /// Add up to 35 to a byte.
    AddSmall,
    /// Subtract up to 35 from a byte.
    SubSmall,
    /// Lower a byte to a small or interesting one.
    MinSmall,
    /// Insert a dictionary value.
    InsertDictionary,
    /// Put a dictionary value over bytes.
    ReplaceDictionary,
    /// Set a word of this width to a smaller one.
    LowerWord(usize),
    /// Add to a word of this width, or subtract from it.
    NudgeWord(usize),
    /// Insert a byte.
    InsertOne,
    /// Insert a copy of a range of the path.
    InsertCopy,
    /// Insert a range of another path.
    Crossover,
    /// Append up to 8 bytes.
    Append,
}

/// The rewrite has the form of the slot and lies within the path.
pub open spec fn suits(
    slot: Slot,
    mutation: MutationModel,
    prefix: Seq<u8>,
    other: Seq<u8>,
    dictionary: Seq<Seq<u8>>,
) -> bool {
    let total = prefix.len() as int;
    match slot {
        Slot::DeleteBody => mutation matches MutationModel::DeleteRange { start, len, first_byte }
            && start >= 1 && len >= 1 && within(start as int, len as int, total)
            && first_byte is ByValue && 1 <= first_byte->ByValue_0 <= 16 && first_byte->ByValue_0
            <= len,
        Slot::DeleteChunk => mutation matches MutationModel::DeleteRange { start, len, first_byte }
            && len >= 1 && within(start as int, len as int, total) && first_byte
            == FirstByteAdjustment::Keep,
        Slot::DeleteOne => mutation matches MutationModel::DeleteRange { start, len, first_byte }
            && len == 1 && start < total && first_byte == FirstByteAdjustment::Keep,
        Slot::Drain => mutation matches MutationModel::DrainPrefix { keep_from } && 1 <= keep_from
            < total,
        Slot::TruncateBody => mutation matches MutationModel::Truncate { len, leading_sub } && 1
            <= len < total && leading_sub is Some && 1 <= leading_sub->0 <= 16 && leading_sub->0
            <= total - len,
        Slot::TruncateAny => mutation matches MutationModel::Truncate { len, leading_sub } && len
            < total && leading_sub is None,
        Slot::FillSmall => mutation matches MutationModel::FillRange { start, bytes }
            && bytes.len() >= 1 && within(start as int, bytes.len() as int, total) && (forall|i: int|
            0 <= i < bytes.len() ==> is_small_or_interesting(#[trigger] bytes[i])),
        Slot::FillZero => mutation matches MutationModel::FillRange { start, bytes } && bytes.len()
            >= 1 && within(start as int, bytes.len() as int, total) && (forall|i: int|
            0 <= i < bytes.len() ==> #[trigger] bytes[i] == 0),
        Slot::FillAny => mutation matches MutationModel::FillRange { start, bytes } && bytes.len()
            >= 1 && within(start as int, bytes.len() as int, total),
        Slot::ShrinkByte => shrinks_byte(mutation, prefix),
        Slot::SetSmall => mutation matches MutationModel::SetByte { index, value } && index < total
            && is_small_or_interesting(value),
        Slot::SetZero => mutation matches MutationModel::SetByte { index, value } && index < total
            && value == 0,
        Slot::SetAny => mutation matches MutationModel::SetByte { index, value } && index < total,
        Slot::FlipBit => mutation matches MutationModel::XorBit { index, bit } && index < total
            && bit < 8,
        Slot::AddSmall => mutation matches MutationModel::AddByte { index, amount } && index < total
            && 1 <= amount <= 35,
        Slot::SubSmall => mutation matches MutationModel::SubByte { index, amount } && index < total
            && 1 <= amount <= 35,
        Slot::MinSmall => mutation matches MutationModel::MinByte { index, value } && index < total
            && is_small_or_interesting(value),
        Slot::InsertDictionary => mutation matches MutationModel::InsertDictionary {
            index,
            dictionary_index,
        } && index <= total && dictionary_index < dictionary.len(),
        Slot::ReplaceDictionary => mutation matches MutationModel::ReplaceDictionary {
            start,
            len,
            dictionary_index,
            mode,
        } && start < total && dictionary_index < dictionary.len() && mode == ReplaceMode::Splice
            && len == (if dictionary[dictionary_index as int].len() < total - start {
            dictionary[dictionary_index as int].len() as int
        } else {
            total - start
        }),
        Slot::LowerWord(width) => lowers_word(mutation, prefix, width),
        Slot::NudgeWord(width) => nudges(mutation, prefix, width),
        Slot::InsertOne => mutation matches MutationModel::InsertBytes { index, bytes } && index
            <= total && bytes.len() == 1,
        Slot::InsertCopy => mutation matches MutationModel::InsertBytes { index, bytes } && index
            <= total && is_chunk_of(bytes, prefix),
        Slot::Crossover => mutation matches MutationModel::InsertBytes { index, bytes } && index
            <= total && is_chunk_of(bytes, other),
        Slot::Append => mutation matches MutationModel::InsertBytes { index, bytes } && index
            == total && 1 <= bytes.len() <= 8,
    }
}

/// A byte is set to one that is not larger.
pub open spec fn shrinks_byte(mutation: MutationModel, prefix: Seq<u8>) -> bool {
    mutation matches MutationModel::SetByte { index, value } && index < prefix.len() && value
        <= prefix[index as int]
}

/// The word of `width` bytes at a place.
pub open spec fn word_at(prefix: Seq<u8>, start: int, width: usize) -> int {
    le_value(prefix.subrange(start, start + width))
}

/// The byte is one of a word of `width` bytes that is zero.
pub open spec fn in_zero_word(prefix: Seq<u8>, index: int, width: usize) -> bool {
    exists|start: int|
        0 <= start <= index < start + width && start + width <= prefix.len() && #[trigger] word_at(
            prefix,
            start,
            width,
        ) == 0
}

/// A word of `width` bytes is set to one of its targets. A word that is zero has none: one of its
/// bytes is set to zero once more. Where the path is too short for a word, a byte is set to one
/// that is not larger.
pub open spec fn lowers_word(mutation: MutationModel, prefix: Seq<u8>, width: usize) -> bool {
    if prefix.len() < width {
        shrinks_byte(mutation, prefix)
    } else {
        match mutation {
            MutationModel::SetWord { start, width: bytes, word, zero_until } => {
                &&& bytes == width
                &&& within(start as int, width as int, prefix.len() as int)
                &&& zero_until is None
                &&& havoc_word_targets_spec(
                    word_at(prefix, start as int, width),
                    width,
                ).contains(word as int)
            },
            MutationModel::SetByte { index, value } => {
                &&& value == 0
                &&& in_zero_word(prefix, index as int, width)
            },
            _ => false,
        }
    }
}

/// Some bytes of `whole`, in a row.
pub open spec fn is_chunk_of(bytes: Seq<u8>, whole: Seq<u8>) -> bool {
    exists|start: int, end: int|
        0 <= start < end <= whole.len() && bytes == #[trigger] whole.subrange(start, end)
}

/// A word of two bytes grows by up to 35, one of four shrinks by up to 35, both modulo their size;
/// where the path is too short, a byte is set to an interesting one.
pub open spec fn nudges(mutation: MutationModel, prefix: Seq<u8>, width: usize) -> bool {
    if prefix.len() < width {
        mutation matches MutationModel::SetByte { index, value } && index < prefix.len()
            && is_interesting(value)
    } else {
        mutation matches MutationModel::SetWord { start, width: bytes, word, zero_until } && bytes
            == width && within(start as int, width as int, prefix.len() as int) && zero_until is None
            && is_nudged(
            le_value(prefix.subrange(start as int, start + width)),
            word as int,
            width,
        )
    }
}

/// `word` is `current` after a step of at most 35.
pub open spec fn is_nudged(current: int, word: int, width: usize) -> bool {
    exists|step: int| 1 <= step <= 35 && word == #[trigger] nudged(current, step, width)
}

/// The word after a step.
pub open spec fn nudged(word: int, step: int, width: usize) -> int {
    if width == 2 {
        (word + step) % 0x1_0000
    } else {
        (word - step) % 0x1_0000_0000
    }
}

/// Forms that need two bytes: ranges are deleted or filled.
pub open spec fn chunk_slots(total: int) -> Seq<(Slot, u64)> {
    if total > 1 {
        seq![
            (Slot::DeleteBody, 5u64),
            (Slot::DeleteChunk, 3),
            (Slot::Drain, 1),
            (Slot::TruncateBody, 2),
            (Slot::DeleteOne, 1),
            (Slot::FillSmall, 1),
        ]
    } else {
        Seq::empty()
    }
}

/// Forms that need a byte.
pub open spec fn byte_slots(total: int) -> Seq<(Slot, u64)> {
    if total > 0 {
        seq![
            (Slot::TruncateAny, 1u64),
            (Slot::FillZero, 2),
            (Slot::ShrinkByte, 4),
            (Slot::SetSmall, 1),
            (Slot::FlipBit, 1),
            (Slot::AddSmall, 1),
            (Slot::SubSmall, 1),
            (Slot::SetZero, 1),
            (Slot::SetAny, 1),
            (Slot::MinSmall, 1),
        ]
    } else {
        Seq::empty()
    }
}

/// Forms that need a dictionary value.
pub open spec fn dictionary_slots(total: int, dictionary: int) -> Seq<(Slot, u64)> {
    if dictionary > 0 {
        seq![(Slot::InsertDictionary, 1u64)] + (if total > 0 {
            seq![(Slot::ReplaceDictionary, 1u64)]
        } else {
            Seq::empty()
        })
    } else {
        Seq::empty()
    }
}

/// Forms that need a word.
pub open spec fn word_slots(total: int) -> Seq<(Slot, u64)> {
    (if total >= 2 {
        seq![(Slot::LowerWord(2), 4u64), (Slot::NudgeWord(2), 1)]
    } else {
        Seq::empty()
    }) + (if total >= 4 {
        seq![(Slot::LowerWord(4), 3u64), (Slot::NudgeWord(4), 1)]
    } else {
        Seq::empty()
    }) + (if total >= 8 {
        seq![(Slot::LowerWord(8), 1u64)]
    } else {
        Seq::empty()
    })
}

/// The forms of the rewrites that are proposed to make a path smaller, each with how much it
/// counts.
pub open spec fn minimizing_slots(total: int, dictionary: int) -> Seq<(Slot, u64)> {
    chunk_slots(total) + byte_slots(total) + dictionary_slots(total, dictionary) + word_slots(total)
        + seq![(Slot::InsertOne, 1u64)]
}

/// The forms of the rewrites that are proposed in search of coverage.
pub open spec fn curious_slots(total: int, other: int, dictionary: int) -> Seq<(Slot, u64)> {
    (if total > 0 {
        seq![
            (Slot::FlipBit, 1u64),
            (Slot::SetAny, 1),
            (Slot::FillAny, 1),
            (Slot::InsertCopy, 1),
            (Slot::AddSmall, 1),
            (Slot::SubSmall, 1),
            (Slot::NudgeWord(2), 1),
            (Slot::NudgeWord(4), 1),
        ]
    } else {
        Seq::empty()
    }) + seq![(Slot::InsertOne, 1u64)] + (if total > 1 {
        seq![(Slot::DeleteOne, 1u64), (Slot::DeleteChunk, 1)]
    } else {
        Seq::empty()
    }) + dictionary_slots(total, dictionary) + (if other > 0 {
        seq![(Slot::Crossover, 1u64)]
    } else {
        Seq::empty()
    }) + seq![(Slot::Append, 1u64)]
}

/// The proposals fill the slots, in order.
pub open spec fn fill(
    mutations: Seq<WeightedMutation>,
    slots: Seq<(Slot, u64)>,
    prefix: Seq<u8>,
    other: Seq<u8>,
    dictionary: Seq<Seq<u8>>,
) -> bool {
    &&& mutations.len() == slots.len()
    &&& forall|i: int|
        0 <= i < slots.len() ==> {
            &&& (#[trigger] mutations[i]).baseline == slots[i].1
            &&& suits(slots[i].0, mutations[i].mutator@, prefix, other, dictionary)
        }
}

/// Whatever fills a slot fits the path.
pub proof fn proposals_fit(
    slot: Slot,
    mutation: MutationModel,
    prefix: Seq<u8>,
    other: Seq<u8>,
    dictionary: Seq<Seq<u8>>,
)
    requires
        suits(slot, mutation, prefix, other, dictionary),
    ensures
        mutated(mutation, prefix, dictionary) is Some,
{
}

/// Append a proposal for the next slot.
fn propose(
    mutations: &mut Vec<WeightedMutation>,
    baseline: u64,
    mutator: ByteMutation,
    Ghost(slot): Ghost<Slot>,
    Ghost(slots): Ghost<Seq<(Slot, u64)>>,
    prefix: &Vec<u8>,
    Ghost(other): Ghost<Seq<u8>>,
    Ghost(dictionary): Ghost<Seq<Seq<u8>>>,
)
    requires
        fill(old(mutations)@, slots, prefix@, other, dictionary),
        suits(slot, mutator@, prefix@, other, dictionary),
    ensures
        fill(final(mutations)@, slots.push((slot, baseline)), prefix@, other, dictionary),
{
    mutations.push(WeightedMutation { baseline, mutator });
}

/// Words below `word` that fit in `width` bytes and are worth a try.
pub open spec fn havoc_word_targets_spec(word: int, width: usize) -> Seq<int> {
    let max = max_word_value_spec(width) as int;
    if word == 0 {
        Seq::empty()
    } else {
        kept_once(
            counting(33) + seq![
                63,
                64,
                127,
                128,
                255,
                256,
                511,
                512,
                1023,
                1024,
                word / 2,
                less_by(word, 1),
                less_by(word, 2),
                less_by(word, 4),
                less_by(word, 8),
                less_by(word, 16),
                less_by(word, 32),
                less_by(word, 64),
            ],
            0,
            if word <= max {
                word
            } else {
                max + 1
            },
            -1,
        )
    }
}

/// Words below `word` that fit in `width` bytes and are worth a try.
pub fn havoc_word_targets(word: u64, width: usize) -> (targets: Vec<u64>)
    ensures
        word_ints(targets@) == havoc_word_targets_spec(word as int, width),
        forall|i: int| 0 <= i < targets@.len() ==> #[trigger] targets@[i] < word,
{
    if word == 0 {
        let targets: Vec<u64> = Vec::new();
        assert(word_ints(targets@) =~= Seq::<int>::empty());
        return targets;
    }
    let mut candidates: Vec<u64> = Vec::new();
    let mut i: u64 = 0;
    assert(word_ints(candidates@) =~= counting(0));
    while i < 33
        invariant
            i <= 33,
            word_ints(candidates@) == counting(i as nat),
        decreases 33 - i,
    {
        let ghost before = candidates@;
        candidates.push(i);
        assert(word_ints(candidates@) =~= word_ints(before).push(i as int));
        i += 1;
        assert(word_ints(candidates@) =~= counting(i as nat));
    }
    let ghost base = candidates@;
    let more: Vec<u64> = vec![
        63,
        64,
        127,
        128,
        255,
        256,
        511,
        512,
        1023,
        1024,
        word / 2,
        word.saturating_sub(1),
        word.saturating_sub(2),
        word.saturating_sub(4),
        word.saturating_sub(8),
        word.saturating_sub(16),
        word.saturating_sub(32),
        word.saturating_sub(64),
    ];
    assert(word_ints(more@) =~= seq![
        63,
        64,
        127,
        128,
        255,
        256,
        511,
        512,
        1023,
        1024,
        word as int / 2,
        less_by(word as int, 1),
        less_by(word as int, 2),
        less_by(word as int, 4),
        less_by(word as int, 8),
        less_by(word as int, 16),
        less_by(word as int, 32),
        less_by(word as int, 64),
    ]);
    candidates.extend_from_slice(more.as_slice());
    assert(word_ints(candidates@) =~= word_ints(base) + word_ints(more@));
    let max = max_word_value(width);
    let highest: u64 = if word <= max {
        word - 1
    } else {
        max
    };
    let targets = keep_words(&candidates, highest);
    proof {
        kept_once_is_bounded(word_ints(candidates@), 0, highest + 1, -1);
        assert forall|i: int| 0 <= i < targets@.len() implies #[trigger] targets@[i] < word by {
            assert(word_ints(targets@)[i] == targets@[i] as int);
        }
    }
    targets
}

/// The first target that is not zero, or the first one.
pub fn first_nonzero(targets: &Vec<u64>) -> (index: usize)
    ensures
        targets@.len() > 0 ==> index < targets@.len(),
        forall|k: int| 0 <= k < index ==> targets@[k] == 0,
        targets@.len() > 0 && targets@[index as int] == 0 ==> index == 0 && forall|k: int|
            0 <= k < targets@.len() ==> targets@[k] == 0,
{
    let mut i: usize = 0;
    while i < targets.len()
        invariant
            i <= targets@.len(),
            forall|k: int| 0 <= k < i ==> targets@[k] == 0,
        decreases targets@.len() - i,
    {
        if targets[i] != 0 {
            return i;
        }
        i += 1;
    }
    0
}

/// One of the targets, most often one that is not zero, and more often an early one.
fn choose_word_target(targets: &Vec<u64>, rng: &mut SmallRng) -> (target: Option<u64>)
    ensures
        target is None <==> targets@.len() == 0,
        target matches Some(word) ==> targets@.contains(word),
{
    let count: usize = targets.len();
    if count == 0 {
        return None;
    }
    let index: usize = if count > 1 && draw_chance(rng, 4, 5) {
        let first: usize = first_nonzero(targets);
        first + minimizing_index(count - first, rng)
    } else {
        minimizing_index(count, rng)
    };
    let word: u64 = targets[index];
    assert(targets@[index as int] == word);
    Some(word)
}

/// A word that is not zero has a target.
proof fn lemma_word_has_target(word: int, width: usize)
    requires
        word > 0,
        width > 0,
    ensures
        havoc_word_targets_spec(word, width).len() > 0,
{
    let max = max_word_value_spec(width) as int;
    let more = seq![
        63,
        64,
        127,
        128,
        255,
        256,
        511,
        512,
        1023,
        1024,
        word / 2,
        less_by(word, 1),
        less_by(word, 2),
        less_by(word, 4),
        less_by(word, 8),
        less_by(word, 16),
        less_by(word, 32),
        less_by(word, 64),
    ];
    let candidates = counting(33) + more;
    assert(candidates[0] == 0);
    lemma_kept_once_keeps(
        candidates,
        0,
        if word <= max {
            word
        } else {
            max + 1
        },
        -1,
        0,
    );
}

/// A word of `width` bytes, set to one of its targets; or a byte, lowered.
fn sample_shrink_word_to_target(prefix: &Vec<u8>, rng: &mut SmallRng, width: usize) -> (mutation:
    ByteMutation)
    requires
        0 < width <= 8,
        prefix@.len() > 0,
    ensures
        lowers_word(mutation@, prefix@, width),
{
    let total: usize = prefix.len();
    if total < width {
        let index: usize = minimizing_index(total, rng);
        return ByteMutation::SetByte { index, value: shrink_byte(prefix[index], rng) };
    }
    let index: usize = minimizing_index(total - width + 1, rng);
    let current: u64 = read_le_word(prefix, index, index + width);
    let targets = havoc_word_targets(current, width);
    let ghost whole = prefix@.subrange(index as int, index + width);
    assert(word_ints(targets@).len() == targets@.len());
    match choose_word_target(&targets, rng) {
        Some(target) => {
            proof {
                let k = choose|k: int| 0 <= k < targets@.len() && targets@[k] == target;
                assert(word_ints(targets@)[k] == target as int);
            }
            ByteMutation::SetWord { start: index, width, word: target, zero_until: None }
        },
        None => {
            proof {
                if current > 0 {
                    lemma_word_has_target(current as int, width);
                }
                assert(word_at(prefix@, index as int, width) == 0);
            }
            let place: usize = index + minimizing_index(width, rng);
            proof {
                lemma_le_value_zero(whole, place - index);
                assert(whole[place - index] == prefix@[place as int]);
            }
            ByteMutation::SetByte { index: place, value: shrink_byte(prefix[place], rng) }
        },
    }
}

/// A word of `width` bytes, a little larger or smaller; or a byte, set to an interesting one.
fn sample_mutate_word(prefix: &Vec<u8>, rng: &mut SmallRng, width: usize) -> (mutation:
    ByteMutation)
    requires
        width == 2 || width == 4,
        prefix@.len() > 0,
    ensures
        nudges(mutation@, prefix@, width),
{
    let total: usize = prefix.len();
    if total < width {
        let index: usize = draw_size(rng, 0, total - 1);
        return ByteMutation::SetByte { index, value: interesting_byte(rng) };
    }
    let index: usize = draw_size(rng, 0, total - width);
    let current: u64 = read_le_word(prefix, index, index + width);
    proof {
        lemma_le_value_bound(prefix@.subrange(index as int, index + width));
        lemma_pow256();
    }
    if width == 2 {
        let step: u16 = draw_u16_in(rng, 1, 35);
        let word: u64 = (current + step as u64) % 0x1_0000;
        assert(word == nudged(current as int, step as int, width));
        assert(is_nudged(current as int, word as int, width));
        ByteMutation::SetWord { start: index, width, word, zero_until: None }
    } else {
        let step: u32 = draw_u32_in(rng, 1, 35);
        let word: u64 = (current + 0x1_0000_0000 - step as u64) % 0x1_0000_0000;
        assert(word == nudged(current as int, step as int, width));
        assert(is_nudged(current as int, word as int, width));
        ByteMutation::SetWord { start: index, width, word, zero_until: None }
    }
}

/// A dictionary value put over bytes of the path.
fn sample_replace_dictionary(prefix: &Vec<u8>, rng: &mut SmallRng, dictionary: &Vec<Vec<u8>>) -> (mutation:
    ByteMutation)
    requires
        prefix@.len() > 0,
        dictionary@.len() > 0,
    ensures
        suits(
            Slot::ReplaceDictionary,
            mutation@,
            prefix@,
            Seq::empty(),
            byte_lists(dictionary@),
        ),
{
    let total: usize = prefix.len();
    let dictionary_index: usize = draw_size(rng, 0, dictionary.len() - 1);
    let start: usize = draw_size(rng, 0, total - 1);
    let size: usize = dictionary[dictionary_index].len();
    assert(byte_lists(dictionary@)[dictionary_index as int]
        == dictionary@[dictionary_index as int]@);
    let len: usize = if size < total - start {
        size
    } else {
        total - start
    };
    ByteMutation::ReplaceDictionary { start, len, dictionary_index, mode: ReplaceMode::Splice }
}

/// A range of bytes of the path.
fn sample_chunk(whole: &Vec<u8>, rng: &mut SmallRng) -> (bytes: Vec<u8>)
    requires
        whole@.len() > 0,
    ensures
        is_chunk_of(bytes@, whole@),
{
    let total: usize = whole.len();
    let start: usize = draw_size(rng, 0, total - 1);
    let end: usize = draw_size(rng, start + 1, total);
    let mut bytes: Vec<u8> = Vec::with_capacity(end - start);
    bytes.extend_from_slice(slice_subrange(whole.as_slice(), start, end));
    assert(bytes@ =~= whole@.subrange(start as int, end as int));
    bytes
}

/// `count` bytes, small or interesting.
fn small_bytes(count: usize, rng: &mut SmallRng) -> (bytes: Vec<u8>)
    ensures
        bytes@.len() == count,
        forall|i: int| 0 <= i < count ==> is_small_or_interesting(#[trigger] bytes@[i]),
{
    let mut bytes: Vec<u8> = Vec::with_capacity(count);
    while bytes.len() < count
        invariant
            bytes@.len() <= count,
            forall|i: int| 0 <= i < bytes@.len() ==> is_small_or_interesting(#[trigger] bytes@[i]),
        decreases count - bytes@.len(),
    {
        bytes.push(small_or_interesting_byte(rng));
    }
    bytes
}

/// `count` zeros.
fn zero_bytes(count: usize) -> (bytes: Vec<u8>)
    ensures
        bytes@.len() == count,
        forall|i: int| 0 <= i < count ==> #[trigger] bytes@[i] == 0,
{
    let mut bytes: Vec<u8> = Vec::with_capacity(count);
    while bytes.len() < count
        invariant
            bytes@.len() <= count,
            forall|i: int| 0 <= i < bytes@.len() ==> #[trigger] bytes@[i] == 0,
        decreases count - bytes@.len(),
    {
        bytes.push(0);
    }
    bytes
}

/// `count` bytes.
fn random_bytes(count: usize, rng: &mut SmallRng) -> (bytes: Vec<u8>)
    ensures
        bytes@.len() == count,
{
    let mut bytes: Vec<u8> = Vec::with_capacity(count);
    while bytes.len() < count
        invariant
            bytes@.len() <= count,
        decreases count - bytes@.len(),
    {
        bytes.push(draw_byte(rng));
    }
    bytes
}

/// Append the proposals that need two bytes.
fn propose_chunks(
    mutations: &mut Vec<WeightedMutation>,
    prefix: &Vec<u8>,
    rng: &mut SmallRng,
    dictionary: &Vec<Vec<u8>>,
    Ghost(before): Ghost<Seq<(Slot, u64)>>,
    Ghost(nobody): Ghost<Seq<u8>>,
)
    requires
        fill(old(mutations)@, before, prefix@, nobody, byte_lists(dictionary@)),
    ensures
        fill(
            final(mutations)@,
            before + chunk_slots(prefix@.len() as int),
            prefix@,
            nobody,
            byte_lists(dictionary@),
        ),
{
    let total: usize = prefix.len();
    let ghost lists = byte_lists(dictionary@);
    let ghost mut slots = before;
    if total > 1 {
        let (start, len) = minimizing_chunk(total, rng, true);
        let amount = leading_byte_subtraction(len, rng);
        let first_byte = match amount {
            Some(amount) => FirstByteAdjustment::ByValue(amount),
            None => FirstByteAdjustment::Keep,
        };
        propose(
            mutations,
            5,
            ByteMutation::DeleteRange { start, len, first_byte },
            Ghost(Slot::DeleteBody),
            Ghost(slots),
            prefix,
            Ghost(nobody),
            Ghost(lists),
        );
        proof {
            slots = slots.push((Slot::DeleteBody, 5u64));
        }
        let (start, len) = minimizing_chunk(total, rng, false);
        propose(
            mutations,
            3,
            ByteMutation::DeleteRange { start, len, first_byte: FirstByteAdjustment::Keep },
            Ghost(Slot::DeleteChunk),
            Ghost(slots),
            prefix,
            Ghost(nobody),
            Ghost(lists),
        );
        proof {
            slots = slots.push((Slot::DeleteChunk, 3u64));
        }
        let keep_from: usize = draw_size(rng, 1, total - 1);
        propose(
            mutations,
            1,
            ByteMutation::DrainPrefix { keep_from },
            Ghost(Slot::Drain),
            Ghost(slots),
            prefix,
            Ghost(nobody),
            Ghost(lists),
        );
        proof {
            slots = slots.push((Slot::Drain, 1u64));
        }
        let keep: usize = 1 + minimizing_index(total - 1, rng);
        let leading_sub = leading_byte_subtraction(total - keep, rng);
        propose(
            mutations,
            2,
            ByteMutation::Truncate { len: keep, leading_sub },
            Ghost(Slot::TruncateBody),
            Ghost(slots),
            prefix,
            Ghost(nobody),
            Ghost(lists),
        );
        proof {
            slots = slots.push((Slot::TruncateBody, 2u64));
        }
        let start: usize = minimizing_index(total, rng);
        propose(
            mutations,
            1,
            ByteMutation::DeleteRange { start, len: 1, first_byte: FirstByteAdjustment::Keep },
            Ghost(Slot::DeleteOne),
            Ghost(slots),
            prefix,
            Ghost(nobody),
            Ghost(lists),
        );
        proof {
            slots = slots.push((Slot::DeleteOne, 1u64));
        }
        let start: usize = minimizing_index(total, rng);
        let end: usize = minimizing_end(total, start, rng);
        let bytes = small_bytes(end - start, rng);
        propose(
            mutations,
            1,
            ByteMutation::FillRange { start, bytes },
            Ghost(Slot::FillSmall),
            Ghost(slots),
            prefix,
            Ghost(nobody),
            Ghost(lists),
        );
        proof {
            slots = slots.push((Slot::FillSmall, 1u64));
        }
    }
    assert(slots =~= before + chunk_slots(prefix@.len() as int));
}

/// Append the proposals that need a byte.
fn propose_bytes(
    mutations: &mut Vec<WeightedMutation>,
    prefix: &Vec<u8>,
    rng: &mut SmallRng,
    dictionary: &Vec<Vec<u8>>,
    Ghost(before): Ghost<Seq<(Slot, u64)>>,
    Ghost(nobody): Ghost<Seq<u8>>,
)
    requires
        fill(old(mutations)@, before, prefix@, nobody, byte_lists(dictionary@)),
    ensures
        fill(
            final(mutations)@,
            before + byte_slots(prefix@.len() as int),
            prefix@,
            nobody,
            byte_lists(dictionary@),
        ),
{
    let total: usize = prefix.len();
    let ghost lists = byte_lists(dictionary@);
    let ghost mut slots = before;
    if total > 0 {
        let len: usize = minimizing_index(total, rng);
        propose(
            mutations,
            1,
            ByteMutation::Truncate { len, leading_sub: None },
            Ghost(Slot::TruncateAny),
            Ghost(slots),
            prefix,
            Ghost(nobody),
            Ghost(lists),
        );
        proof {
            slots = slots.push((Slot::TruncateAny, 1u64));
        }
        let start: usize = minimizing_index(total, rng);
        let end: usize = minimizing_end(total, start, rng);
        let bytes = zero_bytes(end - start);
        propose(
            mutations,
            2,
            ByteMutation::FillRange { start, bytes },
            Ghost(Slot::FillZero),
            Ghost(slots),
            prefix,
            Ghost(nobody),
            Ghost(lists),
        );
        proof {
            slots = slots.push((Slot::FillZero, 2u64));
        }
        let index: usize = minimizing_index(total, rng);
        let value: u8 = shrink_byte(prefix[index], rng);
        propose(
            mutations,
            4,
            ByteMutation::SetByte { index, value },
            Ghost(Slot::ShrinkByte),
            Ghost(slots),
            prefix,
            Ghost(nobody),
            Ghost(lists),
        );
        proof {
            slots = slots.push((Slot::ShrinkByte, 4u64));
        }
        let index: usize = minimizing_index(total, rng);
        let value: u8 = small_or_interesting_byte(rng);
        propose(
            mutations,
            1,
            ByteMutation::SetByte { index, value },
            Ghost(Slot::SetSmall),
            Ghost(slots),
            prefix,
            Ghost(nobody),
            Ghost(lists),
        );
        proof {
            slots = slots.push((Slot::SetSmall, 1u64));
        }
        let index: usize = minimizing_index(total, rng);
        let bit: u8 = draw_byte_in(rng, 0, 7);
        propose(
            mutations,
            1,
            ByteMutation::XorBit { index, bit },
            Ghost(Slot::FlipBit),
            Ghost(slots),
            prefix,
            Ghost(nobody),
            Ghost(lists),
        );
        proof {
            slots = slots.push((Slot::FlipBit, 1u64));
        }
        let index: usize = minimizing_index(total, rng);
        let amount: u8 = draw_byte_in(rng, 1, 35);
        propose(
            mutations,
            1,
            ByteMutation::AddByte { index, amount },
            Ghost(Slot::AddSmall),
            Ghost(slots),
            prefix,
            Ghost(nobody),
            Ghost(lists),
        );
        proof {
            slots = slots.push((Slot::AddSmall, 1u64));
        }
        let index: usize = minimizing_index(total, rng);
        let amount: u8 = draw_byte_in(rng, 1, 35);
        propose(
            mutations,
            1,
            ByteMutation::SubByte { index, amount },
            Ghost(Slot::SubSmall),
            Ghost(slots),
            prefix,
            Ghost(nobody),
            Ghost(lists),
        );
        proof {
            slots = slots.push((Slot::SubSmall, 1u64));
        }
        let index: usize = minimizing_index(total, rng);
        propose(
            mutations,
            1,
            ByteMutation::SetByte { index, value: 0 },
            Ghost(Slot::SetZero),
            Ghost(slots),
            prefix,
            Ghost(nobody),
            Ghost(lists),
        );
        proof {
            slots = slots.push((Slot::SetZero, 1u64));
        }
        let index: usize = minimizing_index(total, rng);
        let value: u8 = draw_byte(rng);
        propose(
            mutations,
            1,
            ByteMutation::SetByte { index, value },
            Ghost(Slot::SetAny),
            Ghost(slots),
            prefix,
            Ghost(nobody),
            Ghost(lists),
        );
        proof {
            slots = slots.push((Slot::SetAny, 1u64));
        }
        let index: usize = minimizing_index(total, rng);
        let value: u8 = small_or_interesting_byte(rng);
        propose(
            mutations,
            1,
            ByteMutation::MinByte { index, value },
            Ghost(Slot::MinSmall),
            Ghost(slots),
            prefix,
            Ghost(nobody),
            Ghost(lists),
        );
        proof {
            slots = slots.push((Slot::MinSmall, 1u64));
        }
    }
    assert(slots =~= before + byte_slots(prefix@.len() as int));
}

/// Append the proposals that need a dictionary value.
fn propose_dictionary(
    mutations: &mut Vec<WeightedMutation>,
    prefix: &Vec<u8>,
    rng: &mut SmallRng,
    dictionary: &Vec<Vec<u8>>,
    Ghost(before): Ghost<Seq<(Slot, u64)>>,
    Ghost(nobody): Ghost<Seq<u8>>,
)
    requires
        fill(old(mutations)@, before, prefix@, nobody, byte_lists(dictionary@)),
    ensures
        fill(
            final(mutations)@,
            before + dictionary_slots(prefix@.len() as int, dictionary@.len() as int),
            prefix@,
            nobody,
            byte_lists(dictionary@),
        ),
{
    let total: usize = prefix.len();
    let ghost lists = byte_lists(dictionary@);
    let ghost mut slots = before;
    if dictionary.len() > 0 {
        let index: usize = draw_size(rng, 0, total);
        let dictionary_index: usize = draw_size(rng, 0, dictionary.len() - 1);
        propose(
            mutations,
            1,
            ByteMutation::InsertDictionary { index, dictionary_index },
            Ghost(Slot::InsertDictionary),
            Ghost(slots),
            prefix,
            Ghost(nobody),
            Ghost(lists),
        );
        proof {
            slots = slots.push((Slot::InsertDictionary, 1u64));
        }
        if total > 0 {
            let mutator = sample_replace_dictionary(prefix, rng, dictionary);
        propose(
            mutations,
            1,
            mutator,
            Ghost(Slot::ReplaceDictionary),
            Ghost(slots),
            prefix,
            Ghost(nobody),
            Ghost(lists),
        );
        proof {
            slots = slots.push((Slot::ReplaceDictionary, 1u64));
        }
        }
    }
    assert(slots =~= before + dictionary_slots(prefix@.len() as int, dictionary@.len() as int));
}

/// Append the proposals that need a word.
fn propose_words(
    mutations: &mut Vec<WeightedMutation>,
    prefix: &Vec<u8>,
    rng: &mut SmallRng,
    dictionary: &Vec<Vec<u8>>,
    Ghost(before): Ghost<Seq<(Slot, u64)>>,
    Ghost(nobody): Ghost<Seq<u8>>,
)
    requires
        fill(old(mutations)@, before, prefix@, nobody, byte_lists(dictionary@)),
    ensures
        fill(
            final(mutations)@,
            before + word_slots(prefix@.len() as int),
            prefix@,
            nobody,
            byte_lists(dictionary@),
        ),
{
    let total: usize = prefix.len();
    let ghost lists = byte_lists(dictionary@);
    let ghost mut slots = before;
    if total >= 2 {
        let mutator = sample_shrink_word_to_target(prefix, rng, 2);
        propose(
            mutations,
            4,
            mutator,
            Ghost(Slot::LowerWord(2)),
            Ghost(slots),
            prefix,
            Ghost(nobody),
            Ghost(lists),
        );
        proof {
            slots = slots.push((Slot::LowerWord(2), 4u64));
        }
        let mutator = sample_mutate_word(prefix, rng, 2);
        propose(
            mutations,
            1,
            mutator,
            Ghost(Slot::NudgeWord(2)),
            Ghost(slots),
            prefix,
            Ghost(nobody),
            Ghost(lists),
        );
        proof {
            slots = slots.push((Slot::NudgeWord(2), 1u64));
        }
    }
    if total >= 4 {
        let mutator = sample_shrink_word_to_target(prefix, rng, 4);
        propose(
            mutations,
            3,
            mutator,
            Ghost(Slot::LowerWord(4)),
            Ghost(slots),
            prefix,
            Ghost(nobody),
            Ghost(lists),
        );
        proof {
            slots = slots.push((Slot::LowerWord(4), 3u64));
        }
        let mutator = sample_mutate_word(prefix, rng, 4);
        propose(
            mutations,
            1,
            mutator,
            Ghost(Slot::NudgeWord(4)),
            Ghost(slots),
            prefix,
            Ghost(nobody),
            Ghost(lists),
        );
        proof {
            slots = slots.push((Slot::NudgeWord(4), 1u64));
        }
    }
    if total >= 8 {
        let mutator = sample_shrink_word_to_target(prefix, rng, 8);
        propose(
            mutations,
            1,
            mutator,
            Ghost(Slot::LowerWord(8)),
            Ghost(slots),
            prefix,
            Ghost(nobody),
            Ghost(lists),
        );
        proof {
            slots = slots.push((Slot::LowerWord(8), 1u64));
        }
    }
    assert(slots =~= before + word_slots(prefix@.len() as int));
}

/// Proposals to make a path smaller: one for each form that the path and the dictionary allow.
pub fn minimizing_havoc_mutations(
    prefix: &Vec<u8>,
    rng: &mut SmallRng,
    dictionary: &Vec<Vec<u8>>,
) -> (mutations: Vec<WeightedMutation>)
    ensures
        fill(
            mutations@,
            minimizing_slots(prefix@.len() as int, dictionary@.len() as int),
            prefix@,
            Seq::empty(),
            byte_lists(dictionary@),
        ),
{
    let total: usize = prefix.len();
    let ghost nobody = Seq::<u8>::empty();
    let ghost lists = byte_lists(dictionary@);
    let ghost mut slots = Seq::<(Slot, u64)>::empty();
    let mut mutations: Vec<WeightedMutation> = Vec::new();
    propose_chunks(&mut mutations, prefix, rng, dictionary, Ghost(slots), Ghost(nobody));
    proof {
        slots = slots + chunk_slots(total as int);
    }
    propose_bytes(&mut mutations, prefix, rng, dictionary, Ghost(slots), Ghost(nobody));
    proof {
        slots = slots + byte_slots(total as int);
    }
    propose_dictionary(&mut mutations, prefix, rng, dictionary, Ghost(slots), Ghost(nobody));
    proof {
        slots = slots + dictionary_slots(total as int, dictionary@.len() as int);
    }
    propose_words(&mut mutations, prefix, rng, dictionary, Ghost(slots), Ghost(nobody));
    proof {
        slots = slots + word_slots(total as int);
    }
    let index: usize = draw_size(rng, 0, total);
    let bytes = random_bytes(1, rng);
    propose(
        &mut mutations,
        1,
        ByteMutation::InsertBytes { index, bytes },
        Ghost(Slot::InsertOne),
        Ghost(slots),
        prefix,
        Ghost(nobody),
        Ghost(lists),
    );
    proof {
        slots = slots.push((Slot::InsertOne, 1u64));
    }
    assert(slots =~= minimizing_slots(total as int, dictionary@.len() as int));
    mutations
}

/// The bytes of the other path, or none.
pub open spec fn crossover_bytes(crossover_prefix: Option<&Vec<u8>>) -> Seq<u8> {
    match crossover_prefix {
        Some(bytes) => bytes@,
        None => Seq::empty(),
    }
}

/// Proposals in search of coverage: one for each form that the path, the other path and the
/// dictionary allow. `salt` seeds the bytes that are appended.
pub fn curious_mutations(
    prefix: &Vec<u8>,
    rng: &mut SmallRng,
    crossover_prefix: Option<&Vec<u8>>,
    dictionary: &Vec<Vec<u8>>,
    salt: u64,
) -> (mutations: Vec<WeightedMutation>)
    ensures
        fill(
            mutations@,
            curious_slots(
                prefix@.len() as int,
                crossover_bytes(crossover_prefix).len() as int,
                dictionary@.len() as int,
            ),
            prefix@,
            crossover_bytes(crossover_prefix),
            byte_lists(dictionary@),
        ),
{
    let total: usize = prefix.len();
    let ghost other = crossover_bytes(crossover_prefix);
    let ghost lists = byte_lists(dictionary@);
    let ghost mut slots = Seq::<(Slot, u64)>::empty();
    let mut mutations: Vec<WeightedMutation> = Vec::new();
    if total > 0 {
        let index: usize = draw_size(rng, 0, total - 1);
        let bit: u8 = draw_byte_in(rng, 0, 7);
        propose(
            &mut mutations,
            1,
            ByteMutation::XorBit { index, bit },
            Ghost(Slot::FlipBit),
            Ghost(slots),
            prefix,
            Ghost(other),
            Ghost(lists),
        );
        proof {
            slots = slots.push((Slot::FlipBit, 1u64));
        }
        let index: usize = draw_size(rng, 0, total - 1);
        let value: u8 = draw_byte(rng);
        propose(
            &mut mutations,
            1,
            ByteMutation::SetByte { index, value },
            Ghost(Slot::SetAny),
            Ghost(slots),
            prefix,
            Ghost(other),
            Ghost(lists),
        );
        proof {
            slots = slots.push((Slot::SetAny, 1u64));
        }
        let start: usize = draw_size(rng, 0, total - 1);
        let end: usize = draw_size(rng, start + 1, total);
        let bytes = random_bytes(end - start, rng);
        propose(
            &mut mutations,
            1,
            ByteMutation::FillRange { start, bytes },
            Ghost(Slot::FillAny),
            Ghost(slots),
            prefix,
            Ghost(other),
            Ghost(lists),
        );
        proof {
            slots = slots.push((Slot::FillAny, 1u64));
        }
        let bytes = sample_chunk(prefix, rng);
        let index: usize = draw_size(rng, 0, total);
        propose(
            &mut mutations,
            1,
            ByteMutation::InsertBytes { index, bytes },
            Ghost(Slot::InsertCopy),
            Ghost(slots),
            prefix,
            Ghost(other),
            Ghost(lists),
        );
        proof {
            slots = slots.push((Slot::InsertCopy, 1u64));
        }
        let index: usize = draw_size(rng, 0, total - 1);
        let amount: u8 = draw_byte_in(rng, 1, 35);
        propose(
            &mut mutations,
            1,
            ByteMutation::AddByte { index, amount },
            Ghost(Slot::AddSmall),
            Ghost(slots),
            prefix,
            Ghost(other),
            Ghost(lists),
        );
        proof {
            slots = slots.push((Slot::AddSmall, 1u64));
        }
        let index: usize = draw_size(rng, 0, total - 1);
        let amount: u8 = draw_byte_in(rng, 1, 35);
        propose(
            &mut mutations,
            1,
            ByteMutation::SubByte { index, amount },
            Ghost(Slot::SubSmall),
            Ghost(slots),
            prefix,
            Ghost(other),
            Ghost(lists),
        );
        proof {
            slots = slots.push((Slot::SubSmall, 1u64));
        }
        let mutator = sample_mutate_word(prefix, rng, 2);
        propose(
            &mut mutations,
            1,
            mutator,
            Ghost(Slot::NudgeWord(2)),
            Ghost(slots),
            prefix,
            Ghost(other),
            Ghost(lists),
        );
        proof {
            slots = slots.push((Slot::NudgeWord(2), 1u64));
        }
        let mutator = sample_mutate_word(prefix, rng, 4);
        propose(
            &mut mutations,
            1,
            mutator,
            Ghost(Slot::NudgeWord(4)),
            Ghost(slots),
            prefix,
            Ghost(other),
            Ghost(lists),
        );
        proof {
            slots = slots.push((Slot::NudgeWord(4), 1u64));
        }
    }
    let index: usize = draw_size(rng, 0, total);
    let bytes = random_bytes(1, rng);
        propose(
            &mut mutations,
            1,
            ByteMutation::InsertBytes { index, bytes },
            Ghost(Slot::InsertOne),
            Ghost(slots),
            prefix,
            Ghost(other),
            Ghost(lists),
        );
        proof {
            slots = slots.push((Slot::InsertOne, 1u64));
        }
    if total > 1 {
        let start: usize = draw_size(rng, 0, total - 1);
        propose(
            &mut mutations,
            1,
            ByteMutation::DeleteRange { start, len: 1, first_byte: FirstByteAdjustment::Keep },
            Ghost(Slot::DeleteOne),
            Ghost(slots),
            prefix,
            Ghost(other),
            Ghost(lists),
        );
        proof {
            slots = slots.push((Slot::DeleteOne, 1u64));
        }
        let start: usize = draw_size(rng, 0, total - 1);
        let end: usize = draw_size(rng, start + 1, total);
        propose(
            &mut mutations,
            1,
            ByteMutation::DeleteRange { start, len: end - start, first_byte: FirstByteAdjustment::Keep },
            Ghost(Slot::DeleteChunk),
            Ghost(slots),
            prefix,
            Ghost(other),
            Ghost(lists),
        );
        proof {
            slots = slots.push((Slot::DeleteChunk, 1u64));
        }
    }
    propose_dictionary(&mut mutations, prefix, rng, dictionary, Ghost(slots), Ghost(other));
    proof {
        slots = slots + dictionary_slots(total as int, dictionary@.len() as int);
    }
    match crossover_prefix {
        Some(whole) => {
            if whole.len() > 0 {
                let bytes = sample_chunk(whole, rng);
                let index: usize = draw_size(rng, 0, total);
        propose(
            &mut mutations,
            1,
            ByteMutation::InsertBytes { index, bytes },
            Ghost(Slot::Crossover),
            Ghost(slots),
            prefix,
            Ghost(other),
            Ghost(lists),
        );
        proof {
            slots = slots.push((Slot::Crossover, 1u64));
        }
            }
        },
        None => {},
    }
    let mut filler = seeded(salt);
    let extra: usize = draw_size(rng, 1, 8);
    let bytes = random_bytes(extra, &mut filler);
        propose(
            &mut mutations,
            1,
            ByteMutation::InsertBytes { index: total, bytes },
            Ghost(Slot::Append),
            Ghost(slots),
            prefix,
            Ghost(other),
            Ghost(lists),
        );
        proof {
            slots = slots.push((Slot::Append, 1u64));
        }
    assert(slots =~= curious_slots(total as int, other.len() as int, dictionary@.len() as int));
    mutations
}

/// What a proposal of each form does to a path: deletions make it shorter, insertions longer, and
/// everything else keeps its length.
pub proof fn proposals_keep_to_their_form(
    slot: Slot,
    mutation: MutationModel,
    prefix: Seq<u8>,
    other: Seq<u8>,
    dictionary: Seq<Seq<u8>>,
)
    requires
        suits(slot, mutation, prefix, other, dictionary),
        prefix.len() <= usize::MAX,
        forall|i: int| 0 <= i < dictionary.len() ==> (#[trigger] dictionary[i]).len() > 0,
        slot matches Slot::LowerWord(width) ==> width <= 8,
        slot matches Slot::NudgeWord(width) ==> width <= 8,
    ensures
        mutated(mutation, prefix, dictionary) matches Some(after) && match slot {
            Slot::DeleteBody | Slot::DeleteChunk | Slot::DeleteOne | Slot::Drain
            | Slot::TruncateBody | Slot::TruncateAny => after.len() < prefix.len(),
            Slot::InsertOne | Slot::InsertCopy | Slot::Crossover | Slot::Append
            | Slot::InsertDictionary => after.len() > prefix.len(),
            Slot::ReplaceDictionary => after.len() >= prefix.len(),
            _ => after.len() == prefix.len(),
        },
        slot == Slot::DeleteOne ==> mutated(mutation, prefix, dictionary).unwrap().len() + 1
            == prefix.len(),
        slot == Slot::InsertOne ==> mutated(mutation, prefix, dictionary).unwrap().len()
            == prefix.len() + 1,
        slot == Slot::Append ==> mutated(mutation, prefix, dictionary).unwrap().len()
            <= prefix.len() + 8 && mutated(mutation, prefix, dictionary).unwrap().take(
            prefix.len() as int,
        ) == prefix,
{
    crate::mutation::lemma_le_bytes(
        if let MutationModel::SetWord { word, .. } = mutation {
            word as int
        } else {
            0
        },
        if let MutationModel::SetWord { width, .. } = mutation {
            width as nat
        } else {
            0
        },
    );
    if slot == Slot::Append {
        assert(mutated(mutation, prefix, dictionary).unwrap().take(prefix.len() as int) =~= prefix);
    }
}

/// A proposal that changes one byte changes no other: it flips one bit, moves it by at most 35
/// either way around its 256 values, or sets it to something small, to zero, or to no more than it
/// was.
pub proof fn single_byte_proposals_change_one_byte(
    slot: Slot,
    mutation: MutationModel,
    prefix: Seq<u8>,
    other: Seq<u8>,
    dictionary: Seq<Seq<u8>>,
)
    requires
        suits(slot, mutation, prefix, other, dictionary),
        ({
            ||| slot == Slot::ShrinkByte
            ||| slot == Slot::SetSmall
            ||| slot == Slot::SetZero
            ||| slot == Slot::AddSmall
            ||| slot == Slot::SubSmall
            ||| slot == Slot::MinSmall
        }),
    ensures
        mutated(mutation, prefix, dictionary) matches Some(after) && exists|i: int|
            {
                &&& 0 <= i < prefix.len()
                &&& after == prefix.update(i, #[trigger] after[i])
                &&& slot == Slot::ShrinkByte ==> after[i] <= prefix[i]
                &&& slot == Slot::MinSmall ==> after[i] <= prefix[i]
                &&& slot == Slot::SetZero ==> after[i] == 0
                &&& slot == Slot::SetSmall ==> after[i] <= 16 || is_interesting(after[i])
                &&& slot == Slot::AddSmall ==> 1 <= (after[i] - prefix[i]) % 256 <= 35
                &&& slot == Slot::SubSmall ==> 1 <= (prefix[i] - after[i]) % 256 <= 35
            },
{
    let after = mutated(mutation, prefix, dictionary).unwrap();
    let i = match mutation {
        MutationModel::SetByte { index, .. } => index as int,
        MutationModel::AddByte { index, .. } => index as int,
        MutationModel::SubByte { index, .. } => index as int,
        MutationModel::MinByte { index, .. } => index as int,
        _ => 0,
    };
    assert(after =~= prefix.update(i, after[i]));
}

/// A word is lowered, never raised.
pub proof fn word_proposals_lower(
    mutation: MutationModel,
    prefix: Seq<u8>,
    width: usize,
    start: usize,
    word: u64,
)
    requires
        lowers_word(mutation, prefix, width),
        prefix.len() >= width,
        mutation matches MutationModel::SetWord { start: at, word: set, .. } && at == start && set
            == word,
    ensures
        word < word_at(prefix, start as int, width),
{
    let current = word_at(prefix, start as int, width);
    let max = max_word_value_spec(width) as int;
    kept_once_is_bounded(
        counting(33) + seq![
            63,
            64,
            127,
            128,
            255,
            256,
            511,
            512,
            1023,
            1024,
            current / 2,
            less_by(current, 1),
            less_by(current, 2),
            less_by(current, 4),
            less_by(current, 8),
            less_by(current, 16),
            less_by(current, 32),
            less_by(current, 64),
        ],
        0,
        if current <= max {
            current
        } else {
            max + 1
        },
        -1,
    );
}

/// A nudge of a word is a step of at most 35 around its values: up for two bytes, down for four.
pub proof fn nudges_are_small(current: int, word: int, width: usize)
    requires
        is_nudged(current, word, width),
        width == 2 || width == 4,
        0 <= current < if width == 2 {
            0x1_0000int
        } else {
            0x1_0000_0000
        },
    ensures
        width == 2 ==> 1 <= word - current <= 35 || 1 <= word + 0x1_0000 - current <= 35,
        width == 4 ==> 1 <= current - word <= 35 || 1 <= current + 0x1_0000_0000 - word <= 35,
        width == 2 ==> 0 <= word < 0x1_0000,
        width == 4 ==> 0 <= word < 0x1_0000_0000,
{
}

} // verus!
