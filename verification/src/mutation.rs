//! Rewrites of a byte path, and of the tree it was drawn from.

use vstd::prelude::*;
use vstd::slice::slice_subrange;

verus! {

/// How the first byte is lowered when a range is deleted.
#[derive(Debug, Clone, Copy, PartialEq, Eq, Structural)]
pub enum FirstByteAdjustment {
    /// Not at all.
    Keep,
    /// By the number of deleted bytes.
    ByDeletedLen,
    /// By this amount.
    ByValue(u8),
}

/// How a dictionary value takes the place of a range.
#[derive(Debug, Clone, Copy, PartialEq, Eq, Structural)]
pub enum ReplaceMode {
    /// Only where it is as long as the range.
    Exact,
    /// Whatever its length.
    Splice,
}

/// `value`, in `width` little-endian bytes at `start`.
#[derive(Debug, Clone, Copy, PartialEq, Eq, Structural)]
pub struct ScalarRankWrite {
    pub start: usize,
    pub width: usize,
    pub value: u128,
}

/// The bytes `start..start + len` of one kept item.
#[derive(Debug, Clone, Copy, PartialEq, Eq, Structural)]
pub struct KeptItem {
    pub start: usize,
    pub len: usize,
}

/// A rewrite of a byte path.
#[derive(Debug, PartialEq, Eq)]
pub enum ByteMutation {
    SetByte { index: usize, value: u8 },
    XorBit { index: usize, bit: u8 },
    AddByte { index: usize, amount: u8 },
    SubByte { index: usize, amount: u8 },
    MinByte { index: usize, value: u8 },
    InsertBytes { index: usize, bytes: Vec<u8> },
    InsertDictionary { index: usize, dictionary_index: usize },
    ReplaceDictionary { start: usize, len: usize, dictionary_index: usize, mode: ReplaceMode },
    DeleteRange { start: usize, len: usize, first_byte: FirstByteAdjustment },
    DrainPrefix { keep_from: usize },
    Truncate { len: usize, leading_sub: Option<u8> },
    FillRange { start: usize, bytes: Vec<u8> },
    SetWord { start: usize, width: usize, word: u64, zero_until: Option<usize> },
    ZeroRange { start: usize, len: usize },
    ZeroRepeated { value: u8 },
    SetScalarRanks { writes: Vec<ScalarRankWrite> },
    DeleteSequenceItems {
        length_start: usize,
        length_width: usize,
        target_len: usize,
        start: usize,
        len: usize,
    },
    ProjectSequenceItems {
        length_start: usize,
        length_width: usize,
        target_len: usize,
        replace_start: usize,
        replace_len: usize,
        items: Vec<KeptItem>,
    },
}

/// A rewrite by its contents.
#[verifier::ext_equal]
pub enum MutationModel {
    SetByte { index: usize, value: u8 },
    XorBit { index: usize, bit: u8 },
    AddByte { index: usize, amount: u8 },
    SubByte { index: usize, amount: u8 },
    MinByte { index: usize, value: u8 },
    InsertBytes { index: usize, bytes: Seq<u8> },
    InsertDictionary { index: usize, dictionary_index: usize },
    ReplaceDictionary { start: usize, len: usize, dictionary_index: usize, mode: ReplaceMode },
    DeleteRange { start: usize, len: usize, first_byte: FirstByteAdjustment },
    DrainPrefix { keep_from: usize },
    Truncate { len: usize, leading_sub: Option<u8> },
    FillRange { start: usize, bytes: Seq<u8> },
    SetWord { start: usize, width: usize, word: u64, zero_until: Option<usize> },
    ZeroRange { start: usize, len: usize },
    ZeroRepeated { value: u8 },
    SetScalarRanks { writes: Seq<ScalarRankWrite> },
    DeleteSequenceItems {
        length_start: usize,
        length_width: usize,
        target_len: usize,
        start: usize,
        len: usize,
    },
    ProjectSequenceItems {
        length_start: usize,
        length_width: usize,
        target_len: usize,
        replace_start: usize,
        replace_len: usize,
        items: Seq<KeptItem>,
    },
}

/// What a rewrite does, whatever its place: rewrites of one kind share one weight.
#[derive(Debug, Clone, Copy, PartialEq, Eq, Structural)]
pub enum MutationKind {
    SetByte,
    XorBit,
    AddByte,
    SubByte,
    MinByte,
    InsertBytes,
    InsertDictionary,
    ReplaceDictionary,
    DeleteRange,
    DrainPrefix,
    Truncate,
    FillRange,
    SetWord,
    ZeroRange,
    ZeroRepeated,
    SetScalarRanks,
    DeleteSequenceItems,
    ProjectSequenceItems,
}

/// Number of kinds.
pub const MUTATION_KINDS: usize = 18;

impl MutationKind {
    /// Place of the kind among all kinds.
    pub open spec fn index_spec(self) -> int {
        match self {
            MutationKind::SetByte => 0,
            MutationKind::XorBit => 1,
            MutationKind::AddByte => 2,
            MutationKind::SubByte => 3,
            MutationKind::MinByte => 4,
            MutationKind::InsertBytes => 5,
            MutationKind::InsertDictionary => 6,
            MutationKind::ReplaceDictionary => 7,
            MutationKind::DeleteRange => 8,
            MutationKind::DrainPrefix => 9,
            MutationKind::Truncate => 10,
            MutationKind::FillRange => 11,
            MutationKind::SetWord => 12,
            MutationKind::ZeroRange => 13,
            MutationKind::ZeroRepeated => 14,
            MutationKind::SetScalarRanks => 15,
            MutationKind::DeleteSequenceItems => 16,
            MutationKind::ProjectSequenceItems => 17,
        }
    }

    /// Place of the kind among all kinds.
    pub fn index(self) -> (index: usize)
        ensures
            index == self.index_spec(),
            index < MUTATION_KINDS,
    {
        match self {
            MutationKind::SetByte => 0,
            MutationKind::XorBit => 1,
            MutationKind::AddByte => 2,
            MutationKind::SubByte => 3,
            MutationKind::MinByte => 4,
            MutationKind::InsertBytes => 5,
            MutationKind::InsertDictionary => 6,
            MutationKind::ReplaceDictionary => 7,
            MutationKind::DeleteRange => 8,
            MutationKind::DrainPrefix => 9,
            MutationKind::Truncate => 10,
            MutationKind::FillRange => 11,
            MutationKind::SetWord => 12,
            MutationKind::ZeroRange => 13,
            MutationKind::ZeroRepeated => 14,
            MutationKind::SetScalarRanks => 15,
            MutationKind::DeleteSequenceItems => 16,
            MutationKind::ProjectSequenceItems => 17,
        }
    }
}

impl MutationModel {
    /// Kind of the rewrite.
    pub open spec fn kind(self) -> MutationKind {
        match self {
            MutationModel::SetByte { .. } => MutationKind::SetByte,
            MutationModel::XorBit { .. } => MutationKind::XorBit,
            MutationModel::AddByte { .. } => MutationKind::AddByte,
            MutationModel::SubByte { .. } => MutationKind::SubByte,
            MutationModel::MinByte { .. } => MutationKind::MinByte,
            MutationModel::InsertBytes { .. } => MutationKind::InsertBytes,
            MutationModel::InsertDictionary { .. } => MutationKind::InsertDictionary,
            MutationModel::ReplaceDictionary { .. } => MutationKind::ReplaceDictionary,
            MutationModel::DeleteRange { .. } => MutationKind::DeleteRange,
            MutationModel::DrainPrefix { .. } => MutationKind::DrainPrefix,
            MutationModel::Truncate { .. } => MutationKind::Truncate,
            MutationModel::FillRange { .. } => MutationKind::FillRange,
            MutationModel::SetWord { .. } => MutationKind::SetWord,
            MutationModel::ZeroRange { .. } => MutationKind::ZeroRange,
            MutationModel::ZeroRepeated { .. } => MutationKind::ZeroRepeated,
            MutationModel::SetScalarRanks { .. } => MutationKind::SetScalarRanks,
            MutationModel::DeleteSequenceItems { .. } => MutationKind::DeleteSequenceItems,
            MutationModel::ProjectSequenceItems { .. } => MutationKind::ProjectSequenceItems,
        }
    }
}

impl View for ByteMutation {
    type V = MutationModel;

    open spec fn view(&self) -> MutationModel {
        match *self {
            ByteMutation::SetByte { index, value } => MutationModel::SetByte { index, value },
            ByteMutation::XorBit { index, bit } => MutationModel::XorBit { index, bit },
            ByteMutation::AddByte { index, amount } => MutationModel::AddByte { index, amount },
            ByteMutation::SubByte { index, amount } => MutationModel::SubByte { index, amount },
            ByteMutation::MinByte { index, value } => MutationModel::MinByte { index, value },
            ByteMutation::InsertBytes { index, bytes } => MutationModel::InsertBytes {
                index,
                bytes: bytes@,
            },
            ByteMutation::InsertDictionary { index, dictionary_index } => {
                MutationModel::InsertDictionary { index, dictionary_index }
            },
            ByteMutation::ReplaceDictionary { start, len, dictionary_index, mode } => {
                MutationModel::ReplaceDictionary { start, len, dictionary_index, mode }
            },
            ByteMutation::DeleteRange { start, len, first_byte } => MutationModel::DeleteRange {
                start,
                len,
                first_byte,
            },
            ByteMutation::DrainPrefix { keep_from } => MutationModel::DrainPrefix { keep_from },
            ByteMutation::Truncate { len, leading_sub } => MutationModel::Truncate {
                len,
                leading_sub,
            },
            ByteMutation::FillRange { start, bytes } => MutationModel::FillRange {
                start,
                bytes: bytes@,
            },
            ByteMutation::SetWord { start, width, word, zero_until } => MutationModel::SetWord {
                start,
                width,
                word,
                zero_until,
            },
            ByteMutation::ZeroRange { start, len } => MutationModel::ZeroRange { start, len },
            ByteMutation::ZeroRepeated { value } => MutationModel::ZeroRepeated { value },
            ByteMutation::SetScalarRanks { writes } => MutationModel::SetScalarRanks {
                writes: writes@,
            },
            ByteMutation::DeleteSequenceItems {
                length_start,
                length_width,
                target_len,
                start,
                len,
            } => MutationModel::DeleteSequenceItems {
                length_start,
                length_width,
                target_len,
                start,
                len,
            },
            ByteMutation::ProjectSequenceItems {
                length_start,
                length_width,
                target_len,
                replace_start,
                replace_len,
                items,
            } => MutationModel::ProjectSequenceItems {
                length_start,
                length_width,
                target_len,
                replace_start,
                replace_len,
                items: items@,
            },
        }
    }
}

/// The contents of a list of byte strings.
pub open spec fn byte_lists(lists: Seq<Vec<u8>>) -> Seq<Seq<u8>> {
    lists.map_values(|list: Vec<u8>| list@)
}

/// `start..start + len` lies within `total` bytes.
pub open spec fn within(start: int, len: int, total: int) -> bool {
    start + len <= total
}

/// `prefix` with `bytes` in place of `start..start + len`.
pub open spec fn spliced(prefix: Seq<u8>, start: int, len: int, bytes: Seq<u8>) -> Seq<u8> {
    prefix.take(start) + bytes + prefix.skip(start + len)
}

/// The low `width` bytes of `value`, lowest first.
pub open spec fn le_bytes(value: int, width: nat) -> Seq<u8>
    decreases width,
{
    if width == 0 {
        Seq::empty()
    } else {
        seq![(value % 256) as u8] + le_bytes(value / 256, (width - 1) as nat)
    }
}

/// `len` zero bytes.
pub open spec fn zeros(len: nat) -> Seq<u8> {
    Seq::new(len, |i: int| 0u8)
}

/// `prefix` with its first byte lowered by `amount`, down to zero.
pub open spec fn first_lowered(prefix: Seq<u8>, amount: int) -> Seq<u8> {
    if prefix.len() == 0 {
        prefix
    } else if prefix[0] >= amount {
        prefix.update(0, (prefix[0] - amount) as u8)
    } else {
        prefix.update(0, 0)
    }
}

/// The writes fit in `total` bytes.
pub open spec fn writes_fit(writes: Seq<ScalarRankWrite>, total: int) -> bool {
    forall|i: int|
        0 <= i < writes.len() ==> {
            &&& 0 < (#[trigger] writes[i]).width <= 16
            &&& within(writes[i].start as int, writes[i].width as int, total)
        }
}

/// `prefix` after the writes, in order.
pub open spec fn written(prefix: Seq<u8>, writes: Seq<ScalarRankWrite>) -> Seq<u8>
    decreases writes.len(),
{
    if writes.len() == 0 {
        prefix
    } else {
        let last = writes.last();
        spliced(
            written(prefix, writes.drop_last()),
            last.start as int,
            last.width as int,
            le_bytes(last.value as int, last.width as nat),
        )
    }
}

/// The kept items lie within `total` bytes and hold some.
pub open spec fn items_fit(items: Seq<KeptItem>, total: int) -> bool {
    forall|i: int|
        0 <= i < items.len() ==> {
            &&& (#[trigger] items[i]).len > 0
            &&& within(items[i].start as int, items[i].len as int, total)
        }
}

/// The bytes of the kept items, in order.
pub open spec fn kept_bytes(prefix: Seq<u8>, items: Seq<KeptItem>) -> Seq<u8>
    decreases items.len(),
{
    if items.len() == 0 {
        Seq::empty()
    } else {
        let last = items.last();
        kept_bytes(prefix, items.drop_last()) + prefix.subrange(
            last.start as int,
            last.start + last.len,
        )
    }
}

/// The first byte is lowered by this much when `len` bytes are deleted.
pub open spec fn adjustment(first_byte: FirstByteAdjustment, len: int) -> int {
    match first_byte {
        FirstByteAdjustment::Keep => 0,
        FirstByteAdjustment::ByDeletedLen => len,
        FirstByteAdjustment::ByValue(amount) => amount as int,
    }
}

/// `prefix` after the rewrite, or `None` where the rewrite does not fit it.
pub open spec fn mutated(
    mutation: MutationModel,
    prefix: Seq<u8>,
    dictionary: Seq<Seq<u8>>,
) -> Option<Seq<u8>> {
    let total = prefix.len() as int;
    match mutation {
        MutationModel::SetByte { index, value } => if index < total {
            Some(prefix.update(index as int, value))
        } else {
            None
        },
        MutationModel::XorBit { index, bit } => if index < total {
            Some(prefix.update(index as int, prefix[index as int] ^ (1u8 << (bit % 8))))
        } else {
            None
        },
        MutationModel::AddByte { index, amount } => if index < total {
            Some(prefix.update(index as int, ((prefix[index as int] + amount) % 256) as u8))
        } else {
            None
        },
        MutationModel::SubByte { index, amount } => if index < total {
            Some(prefix.update(index as int, ((prefix[index as int] - amount) % 256) as u8))
        } else {
            None
        },
        MutationModel::MinByte { index, value } => if index < total {
            if value < prefix[index as int] {
                Some(prefix.update(index as int, value))
            } else {
                Some(prefix)
            }
        } else {
            None
        },
        MutationModel::InsertBytes { index, bytes } => if index <= total {
            Some(spliced(prefix, index as int, 0, bytes))
        } else {
            None
        },
        MutationModel::InsertDictionary { index, dictionary_index } => if dictionary_index
            < dictionary.len() && index <= total {
            Some(spliced(prefix, index as int, 0, dictionary[dictionary_index as int]))
        } else {
            None
        },
        MutationModel::ReplaceDictionary { start, len, dictionary_index, mode } => {
            if dictionary_index < dictionary.len() && within(start as int, len as int, total) && (
            mode == ReplaceMode::Splice || dictionary[dictionary_index as int].len() == len) {
                Some(spliced(prefix, start as int, len as int, dictionary[dictionary_index as int]))
            } else {
                None
            }
        },
        MutationModel::DeleteRange { start, len, first_byte } => if len > 0 && within(
            start as int,
            len as int,
            total,
        ) {
            Some(
                first_lowered(
                    spliced(prefix, start as int, len as int, Seq::empty()),
                    adjustment(first_byte, len as int),
                ),
            )
        } else {
            None
        },
        MutationModel::DrainPrefix { keep_from } => if 0 < keep_from <= total {
            Some(prefix.skip(keep_from as int))
        } else {
            None
        },
        MutationModel::Truncate { len, leading_sub } => if len < total {
            Some(
                first_lowered(
                    prefix.take(len as int),
                    match leading_sub {
                        Some(amount) => amount as int,
                        None => 0,
                    },
                ),
            )
        } else {
            None
        },
        MutationModel::FillRange { start, bytes } => if within(
            start as int,
            bytes.len() as int,
            total,
        ) {
            Some(spliced(prefix, start as int, bytes.len() as int, bytes))
        } else {
            None
        },
        MutationModel::SetWord { start, width, word, zero_until } => if within(
            start as int,
            width as int,
            total,
        ) {
            let lowered = spliced(
                prefix,
                start as int,
                width as int,
                le_bytes(word as int, width as nat),
            );
            let tail = start + width;
            match zero_until {
                Some(end) => if tail < end && end <= total {
                    Some(spliced(lowered, tail, end - tail, zeros((end - tail) as nat)))
                } else {
                    Some(lowered)
                },
                None => Some(lowered),
            }
        } else {
            None
        },
        MutationModel::ZeroRange { start, len } => if len > 0 && within(
            start as int,
            len as int,
            total,
        ) {
            Some(spliced(prefix, start as int, len as int, zeros(len as nat)))
        } else {
            None
        },
        MutationModel::ZeroRepeated { value } => if value != 0 && prefix.contains(value) {
            Some(prefix.map_values(|byte: u8| if byte == value { 0u8 } else { byte }))
        } else {
            None
        },
        MutationModel::SetScalarRanks { writes } => if writes.len() > 0 && writes_fit(
            writes,
            total,
        ) {
            Some(written(prefix, writes))
        } else {
            None
        },
        MutationModel::DeleteSequenceItems { length_start, length_width, target_len, start, len }
            => if length_width > 0 && within(length_start as int, length_width as int, total) && len
            > 0 && within(start as int, len as int, total) {
            let counted = spliced(
                prefix,
                length_start as int,
                length_width as int,
                le_bytes(target_len as int, length_width as nat),
            );
            Some(spliced(counted, start as int, len as int, Seq::empty()))
        } else {
            None
        },
        MutationModel::ProjectSequenceItems {
            length_start,
            length_width,
            target_len,
            replace_start,
            replace_len,
            items,
        } => if length_width > 0 && within(length_start as int, length_width as int, total)
            && within(replace_start as int, replace_len as int, total) && items_fit(items, total) {
            let counted = spliced(
                prefix,
                length_start as int,
                length_width as int,
                le_bytes(target_len as int, length_width as nat),
            );
            Some(
                spliced(
                    counted,
                    replace_start as int,
                    replace_len as int,
                    kept_bytes(prefix, items),
                ),
            )
        } else {
            None
        },
    }
}

pub(crate) proof fn lemma_le_bytes(value: int, width: nat)
    ensures
        le_bytes(value, width).len() == width,
    decreases width,
{
    if width > 0 {
        lemma_le_bytes(value / 256, (width - 1) as nat);
    }
}

/// The writes change no byte's place.
pub(crate) proof fn lemma_written_len(prefix: Seq<u8>, writes: Seq<ScalarRankWrite>)
    requires
        writes_fit(writes, prefix.len() as int),
    ensures
        written(prefix, writes).len() == prefix.len(),
    decreases writes.len(),
{
    if writes.len() > 0 {
        assert(writes_fit(writes.drop_last(), prefix.len() as int)) by {
            assert forall|i: int| 0 <= i < writes.drop_last().len() implies {
                &&& 0 < (#[trigger] writes.drop_last()[i]).width <= 16
                &&& within(
                    writes.drop_last()[i].start as int,
                    writes.drop_last()[i].width as int,
                    prefix.len() as int,
                )
            } by {
                assert(writes.drop_last()[i] == writes[i]);
            }
        }
        lemma_written_len(prefix, writes.drop_last());
        let last = writes.last();
        assert(last == writes[writes.len() - 1]);
        lemma_le_bytes(last.value as int, last.width as nat);
    }
}

/// The low `width` bytes of `value`, lowest first.
pub fn le_word(value: u128, width: usize) -> (bytes: Vec<u8>)
    ensures
        bytes@ == le_bytes(value as int, width as nat),
{
    let mut bytes: Vec<u8> = Vec::with_capacity(width);
    let mut rest: u128 = value;
    let mut i: usize = 0;
    assert(bytes@ + le_bytes(value as int, width as nat) =~= le_bytes(value as int, width as nat));
    while i < width
        invariant
            i <= width,
            bytes@ + le_bytes(rest as int, (width - i) as nat) == le_bytes(
                value as int,
                width as nat,
            ),
        decreases width - i,
    {
        let ghost before = bytes@;
        let byte: u8 = (rest % 256) as u8;
        bytes.push(byte);
        assert(bytes@ + le_bytes(rest as int / 256, (width - i - 1) as nat) =~= before + le_bytes(
            rest as int,
            (width - i) as nat,
        ));
        rest = rest / 256;
        i += 1;
    }
    assert(bytes@ =~= bytes@ + le_bytes(rest as int, 0));
    bytes
}

/// `start..start + len` lies within `total` bytes.
fn fits(start: usize, len: usize, total: usize) -> (fits: bool)
    ensures
        fits == within(start as int, len as int, total as int),
{
    start <= total && len <= total - start
}

/// Put `bytes` in place of `start..start + len`.
pub fn splice(prefix: &mut Vec<u8>, start: usize, len: usize, bytes: &Vec<u8>)
    requires
        start + len <= old(prefix)@.len(),
    ensures
        final(prefix)@ == spliced(old(prefix)@, start as int, len as int, bytes@),
{
    let total: usize = prefix.len();
    let mut out: Vec<u8> = Vec::new();
    out.extend_from_slice(slice_subrange(prefix.as_slice(), 0, start));
    out.extend_from_slice(bytes.as_slice());
    out.extend_from_slice(slice_subrange(prefix.as_slice(), start + len, total));
    assert(out@ =~= spliced(prefix@, start as int, len as int, bytes@));
    *prefix = out;
}

/// Put zeros in place of `start..start + len`.
fn zero(prefix: &mut Vec<u8>, start: usize, len: usize)
    requires
        start + len <= old(prefix)@.len(),
    ensures
        final(prefix)@ == spliced(old(prefix)@, start as int, len as int, zeros(len as nat)),
{
    let ghost before = prefix@;
    let total: usize = prefix.len();
    let mut i: usize = 0;
    while i < len
        invariant
            i <= len,
            start + len <= total,
            total == before.len(),
            prefix@.len() == before.len(),
            forall|k: int|
                0 <= k < before.len() ==> #[trigger] prefix@[k] == if start <= k < start + i {
                    0u8
                } else {
                    before[k]
                },
        decreases len - i,
    {
        prefix.set(start + i, 0);
        i += 1;
    }
    assert(prefix@ =~= spliced(before, start as int, len as int, zeros(len as nat)));
}

/// Lower the first byte by `amount`, down to zero.
fn lower_first(prefix: &mut Vec<u8>, amount: usize)
    ensures
        final(prefix)@ == first_lowered(old(prefix)@, amount as int),
{
    if prefix.len() > 0 {
        let first: u8 = prefix[0];
        if first as usize >= amount {
            prefix.set(0, first - amount as u8);
        } else {
            prefix.set(0, 0);
        }
    }
}

/// Every write fits in `total` bytes.
fn all_writes_fit(writes: &Vec<ScalarRankWrite>, total: usize) -> (fit: bool)
    ensures
        fit == writes_fit(writes@, total as int),
{
    let mut i: usize = 0;
    while i < writes.len()
        invariant
            i <= writes@.len(),
            forall|k: int|
                0 <= k < i ==> {
                    &&& 0 < (#[trigger] writes@[k]).width <= 16
                    &&& within(writes@[k].start as int, writes@[k].width as int, total as int)
                },
        decreases writes@.len() - i,
    {
        let write = writes[i];
        if write.width == 0 || write.width > 16 || !fits(write.start, write.width, total) {
            assert(writes@[i as int] == write);
            return false;
        }
        i += 1;
    }
    true
}

/// Every kept item fits in `total` bytes.
fn all_items_fit(items: &Vec<KeptItem>, total: usize) -> (fit: bool)
    ensures
        fit == items_fit(items@, total as int),
{
    let mut i: usize = 0;
    while i < items.len()
        invariant
            i <= items@.len(),
            forall|k: int|
                0 <= k < i ==> {
                    &&& (#[trigger] items@[k]).len > 0
                    &&& within(items@[k].start as int, items@[k].len as int, total as int)
                },
        decreases items@.len() - i,
    {
        let item = items[i];
        if item.len == 0 || !fits(item.start, item.len, total) {
            assert(items@[i as int] == item);
            return false;
        }
        i += 1;
    }
    true
}

/// Make the writes, in order.
fn write_all(prefix: &mut Vec<u8>, writes: &Vec<ScalarRankWrite>)
    requires
        writes_fit(writes@, old(prefix)@.len() as int),
    ensures
        final(prefix)@ == written(old(prefix)@, writes@),
{
    let ghost before = prefix@;
    let mut i: usize = 0;
    assert(writes@.take(0) =~= Seq::<ScalarRankWrite>::empty());
    while i < writes.len()
        invariant
            i <= writes@.len(),
            writes_fit(writes@, before.len() as int),
            prefix@.len() == before.len(),
            prefix@ == written(before, writes@.take(i as int)),
        decreases writes@.len() - i,
    {
        let write = writes[i];
        assert(writes@[i as int] == write);
        let bytes = le_word(write.value, write.width);
        proof {
            lemma_le_bytes(write.value as int, write.width as nat);
            assert(writes@.take(i + 1).drop_last() =~= writes@.take(i as int));
        }
        splice(prefix, write.start, write.width, &bytes);
        i += 1;
    }
    assert(writes@.take(writes@.len() as int) =~= writes@);
}

/// The bytes of the kept items, in order.
fn gather(prefix: &Vec<u8>, items: &Vec<KeptItem>) -> (bytes: Vec<u8>)
    requires
        items_fit(items@, prefix@.len() as int),
    ensures
        bytes@ == kept_bytes(prefix@, items@),
{
    let mut bytes: Vec<u8> = Vec::new();
    let total: usize = prefix.len();
    let mut i: usize = 0;
    assert(items@.take(0) =~= Seq::<KeptItem>::empty());
    while i < items.len()
        invariant
            i <= items@.len(),
            total == prefix@.len(),
            items_fit(items@, prefix@.len() as int),
            bytes@ == kept_bytes(prefix@, items@.take(i as int)),
        decreases items@.len() - i,
    {
        let item = items[i];
        assert(items@[i as int] == item);
        let ghost before = bytes@;
        bytes.extend_from_slice(
            slice_subrange(prefix.as_slice(), item.start, item.start + item.len),
        );
        proof {
            assert(items@.take(i + 1).drop_last() =~= items@.take(i as int));
            assert(bytes@ =~= before + prefix@.subrange(item.start as int, item.start + item.len));
        }
        i += 1;
    }
    assert(items@.take(items@.len() as int) =~= items@);
    bytes
}

impl ByteMutation {
    /// Kind of the rewrite.
    pub fn kind(&self) -> (kind: MutationKind)
        ensures
            kind == self@.kind(),
    {
        match self {
            ByteMutation::SetByte { .. } => MutationKind::SetByte,
            ByteMutation::XorBit { .. } => MutationKind::XorBit,
            ByteMutation::AddByte { .. } => MutationKind::AddByte,
            ByteMutation::SubByte { .. } => MutationKind::SubByte,
            ByteMutation::MinByte { .. } => MutationKind::MinByte,
            ByteMutation::InsertBytes { .. } => MutationKind::InsertBytes,
            ByteMutation::InsertDictionary { .. } => MutationKind::InsertDictionary,
            ByteMutation::ReplaceDictionary { .. } => MutationKind::ReplaceDictionary,
            ByteMutation::DeleteRange { .. } => MutationKind::DeleteRange,
            ByteMutation::DrainPrefix { .. } => MutationKind::DrainPrefix,
            ByteMutation::Truncate { .. } => MutationKind::Truncate,
            ByteMutation::FillRange { .. } => MutationKind::FillRange,
            ByteMutation::SetWord { .. } => MutationKind::SetWord,
            ByteMutation::ZeroRange { .. } => MutationKind::ZeroRange,
            ByteMutation::ZeroRepeated { .. } => MutationKind::ZeroRepeated,
            ByteMutation::SetScalarRanks { .. } => MutationKind::SetScalarRanks,
            ByteMutation::DeleteSequenceItems { .. } => MutationKind::DeleteSequenceItems,
            ByteMutation::ProjectSequenceItems { .. } => MutationKind::ProjectSequenceItems,
        }
    }

    /// Rewrite `prefix`, and say whether the rewrite fits it; one that does not changes nothing.
    pub fn apply_bytes(&self, prefix: &mut Vec<u8>, dictionary: &Vec<Vec<u8>>) -> (applied: bool)
        ensures
            applied == (mutated(self@, old(prefix)@, byte_lists(dictionary@)) is Some),
            final(prefix)@ == match mutated(self@, old(prefix)@, byte_lists(dictionary@)) {
                Some(bytes) => bytes,
                None => old(prefix)@,
            },
    {
        let total: usize = prefix.len();
        match self {
            ByteMutation::SetByte { index, value } => {
                if *index >= total {
                    return false;
                }
                prefix.set(*index, *value);
                true
            },
            ByteMutation::XorBit { index, bit } => {
                if *index >= total {
                    return false;
                }
                let byte: u8 = prefix[*index];
                prefix.set(*index, byte ^ (1u8 << (*bit % 8)));
                true
            },
            ByteMutation::AddByte { index, amount } => {
                if *index >= total {
                    return false;
                }
                let sum: u16 = prefix[*index] as u16 + *amount as u16;
                prefix.set(*index, (sum % 256) as u8);
                true
            },
            ByteMutation::SubByte { index, amount } => {
                if *index >= total {
                    return false;
                }
                let difference: u16 = 256 + prefix[*index] as u16 - *amount as u16;
                prefix.set(*index, (difference % 256) as u8);
                true
            },
            ByteMutation::MinByte { index, value } => {
                if *index >= total {
                    return false;
                }
                if *value < prefix[*index] {
                    prefix.set(*index, *value);
                }
                true
            },
            ByteMutation::InsertBytes { index, bytes } => {
                if *index > total {
                    return false;
                }
                splice(prefix, *index, 0, bytes);
                true
            },
            ByteMutation::InsertDictionary { index, dictionary_index } => {
                if *dictionary_index >= dictionary.len() || *index > total {
                    return false;
                }
                splice(prefix, *index, 0, &dictionary[*dictionary_index]);
                true
            },
            ByteMutation::ReplaceDictionary { start, len, dictionary_index, mode } => {
                if *dictionary_index >= dictionary.len() || !fits(*start, *len, total) {
                    return false;
                }
                if *mode == ReplaceMode::Exact && dictionary[*dictionary_index].len() != *len {
                    return false;
                }
                splice(prefix, *start, *len, &dictionary[*dictionary_index]);
                true
            },
            ByteMutation::DeleteRange { start, len, first_byte } => {
                if *len == 0 || !fits(*start, *len, total) {
                    return false;
                }
                let nothing: Vec<u8> = Vec::new();
                splice(prefix, *start, *len, &nothing);
                assert(nothing@ =~= Seq::<u8>::empty());
                match first_byte {
                    FirstByteAdjustment::Keep => {
                        assert(first_lowered(prefix@, 0) =~= prefix@);
                    },
                    FirstByteAdjustment::ByDeletedLen => lower_first(prefix, *len),
                    FirstByteAdjustment::ByValue(amount) => lower_first(prefix, *amount as usize),
                }
                true
            },
            ByteMutation::DrainPrefix { keep_from } => {
                if *keep_from == 0 || *keep_from > total {
                    return false;
                }
                let nothing: Vec<u8> = Vec::new();
                splice(prefix, 0, *keep_from, &nothing);
                assert(prefix@ =~= old(prefix)@.skip(*keep_from as int));
                true
            },
            ByteMutation::Truncate { len, leading_sub } => {
                if *len >= total {
                    return false;
                }
                prefix.truncate(*len);
                match leading_sub {
                    Some(amount) => lower_first(prefix, *amount as usize),
                    None => {
                        assert(first_lowered(prefix@, 0) =~= prefix@);
                    },
                }
                true
            },
            ByteMutation::FillRange { start, bytes } => {
                if !fits(*start, bytes.len(), total) {
                    return false;
                }
                splice(prefix, *start, bytes.len(), bytes);
                true
            },
            ByteMutation::SetWord { start, width, word, zero_until } => {
                if !fits(*start, *width, total) {
                    return false;
                }
                let bytes = le_word(*word as u128, *width);
                proof {
                    lemma_le_bytes(*word as int, *width as nat);
                }
                splice(prefix, *start, *width, &bytes);
                match zero_until {
                    Some(end) => {
                        let tail: usize = *start + *width;
                        if tail < *end && *end <= total {
                            zero(prefix, tail, *end - tail);
                        }
                    },
                    None => {},
                }
                true
            },
            ByteMutation::ZeroRange { start, len } => {
                if *len == 0 || !fits(*start, *len, total) {
                    return false;
                }
                zero(prefix, *start, *len);
                true
            },
            ByteMutation::ZeroRepeated { value } => zero_repeated(prefix, *value),
            ByteMutation::SetScalarRanks { writes } => {
                if writes.len() == 0 || !all_writes_fit(writes, total) {
                    return false;
                }
                write_all(prefix, writes);
                true
            },
            ByteMutation::DeleteSequenceItems {
                length_start,
                length_width,
                target_len,
                start,
                len,
            } => {
                if *length_width == 0 || !fits(*length_start, *length_width, total) || *len == 0
                    || !fits(*start, *len, total) {
                    return false;
                }
                let bytes = le_word(*target_len as u128, *length_width);
                proof {
                    lemma_le_bytes(*target_len as int, *length_width as nat);
                }
                splice(prefix, *length_start, *length_width, &bytes);
                let nothing: Vec<u8> = Vec::new();
                splice(prefix, *start, *len, &nothing);
                assert(nothing@ =~= Seq::<u8>::empty());
                true
            },
            ByteMutation::ProjectSequenceItems {
                length_start,
                length_width,
                target_len,
                replace_start,
                replace_len,
                items,
            } => {
                if *length_width == 0 || !fits(*length_start, *length_width, total) || !fits(
                    *replace_start,
                    *replace_len,
                    total,
                ) || !all_items_fit(items, total) {
                    return false;
                }
                let replacement = gather(prefix, items);
                let bytes = le_word(*target_len as u128, *length_width);
                proof {
                    lemma_le_bytes(*target_len as int, *length_width as nat);
                }
                splice(prefix, *length_start, *length_width, &bytes);
                splice(prefix, *replace_start, *replace_len, &replacement);
                true
            },
        }
    }
}

/// Put zero in place of every byte equal to `value`, which is not zero, and say whether there
/// was one.
fn zero_repeated(prefix: &mut Vec<u8>, value: u8) -> (applied: bool)
    ensures
        applied == (value != 0 && old(prefix)@.contains(value)),
        final(prefix)@ == if applied {
            old(prefix)@.map_values(|byte: u8| if byte == value { 0u8 } else { byte })
        } else {
            old(prefix)@
        },
{
    if value == 0 {
        return false;
    }
    let ghost before = prefix@;
    let mut found: bool = false;
    let mut i: usize = 0;
    while i < prefix.len()
        invariant
            i <= prefix@.len(),
            value != 0,
            prefix@.len() == before.len(),
            found == before.take(i as int).contains(value),
            forall|k: int|
                0 <= k < before.len() ==> #[trigger] prefix@[k] == if k < i && before[k] == value {
                    0u8
                } else {
                    before[k]
                },
        decreases prefix@.len() - i,
    {
        proof {
            let shorter = before.take(i as int);
            let longer = before.take(i + 1);
            assert(longer =~= shorter.push(before[i as int]));
            assert(longer[i as int] == before[i as int]);
            if shorter.contains(value) {
                let k = choose|k: int| 0 <= k < shorter.len() && shorter[k] == value;
                assert(longer[k] == value);
            }
        }
        if prefix[i] == value {
            prefix.set(i, 0);
            found = true;
        }
        i += 1;
    }
    assert(before.take(before.len() as int) =~= before);
    if found {
        assert(prefix@ =~= before.map_values(|byte: u8| if byte == value { 0u8 } else { byte }));
    } else {
        assert(prefix@ =~= before);
    }
    found
}

/// A rewrite of one byte leaves every other byte alone; one behind the end of the path does not
/// fit.
pub proof fn single_bytes_are_rewritten(
    mutation: MutationModel,
    index: usize,
    prefix: Seq<u8>,
    dictionary: Seq<Seq<u8>>,
)
    requires
        ({
            ||| mutation matches MutationModel::SetByte { index: at, .. } && at == index
            ||| mutation matches MutationModel::XorBit { index: at, .. } && at == index
            ||| mutation matches MutationModel::AddByte { index: at, .. } && at == index
            ||| mutation matches MutationModel::SubByte { index: at, .. } && at == index
            ||| mutation matches MutationModel::MinByte { index: at, .. } && at == index
        }),
    ensures
        mutated(mutation, prefix, dictionary) is Some <==> index < prefix.len(),
        mutated(mutation, prefix, dictionary) matches Some(after) ==> after.len() == prefix.len()
            && forall|i: int|
            0 <= i < prefix.len() && i != index ==> #[trigger] after[i] == prefix[i],
{
}

/// A byte that was set holds its value; one that was lowered holds the lesser of the two.
pub proof fn set_bytes_hold_their_value(
    index: usize,
    value: u8,
    prefix: Seq<u8>,
    dictionary: Seq<Seq<u8>>,
)
    requires
        index < prefix.len(),
    ensures
        mutated(MutationModel::SetByte { index, value }, prefix, dictionary) matches Some(after)
            && after[index as int] == value,
        mutated(MutationModel::MinByte { index, value }, prefix, dictionary) matches Some(after)
            && after[index as int] <= value && after[index as int] <= prefix[index as int] && (
        after[index as int] == value || after[index as int] == prefix[index as int]),
{
}

/// Flipping a bit changes that bit and no other, so that flipping it again undoes it. Bits are
/// counted from the lowest, around the eight of a byte.
pub proof fn flipped_bits_flip_back(
    index: usize,
    bit: u8,
    prefix: Seq<u8>,
    dictionary: Seq<Seq<u8>>,
)
    requires
        index < prefix.len(),
    ensures
        mutated(MutationModel::XorBit { index, bit }, prefix, dictionary) matches Some(after)
            && mutated(MutationModel::XorBit { index, bit }, after, dictionary) == Some(prefix)
            && forall|b: u8|
            b < 8 ==> (((#[trigger] (after[index as int] >> b)) & 1 != (prefix[index as int] >> b)
                & 1) <==> b == bit % 8),
{
    let byte = prefix[index as int];
    let flipped = byte ^ (1u8 << (bit % 8));
    assert((byte ^ (1u8 << (bit % 8))) ^ (1u8 << (bit % 8)) == byte) by (bit_vector);
    assert forall|b: u8| b < 8 implies (((#[trigger] (flipped >> b)) & 1 != (byte >> b) & 1)
        <==> b == bit % 8) by {
        assert(((((byte ^ (1u8 << (bit % 8))) >> b) & 1 != (byte >> b) & 1) <==> b == bit % 8))
            by (bit_vector)
            requires
                b < 8,
        ;
    }
    let after = mutated(MutationModel::XorBit { index, bit }, prefix, dictionary).unwrap();
    assert(after.update(index as int, byte) =~= prefix);
}

/// Adding moves a byte up by the amount, around its 256 values, and subtracting moves it back.
pub proof fn sums_are_undone(
    index: usize,
    amount: u8,
    prefix: Seq<u8>,
    dictionary: Seq<Seq<u8>>,
)
    requires
        index < prefix.len(),
    ensures
        mutated(MutationModel::AddByte { index, amount }, prefix, dictionary) matches Some(after)
            && (after[index as int] == prefix[index as int] + amount || after[index as int]
            == prefix[index as int] + amount - 256) && mutated(
            MutationModel::SubByte { index, amount },
            after,
            dictionary,
        ) == Some(prefix),
        mutated(MutationModel::SubByte { index, amount }, prefix, dictionary) matches Some(after)
            && (after[index as int] == prefix[index as int] - amount || after[index as int]
            == prefix[index as int] - amount + 256) && mutated(
            MutationModel::AddByte { index, amount },
            after,
            dictionary,
        ) == Some(prefix),
{
    let up = mutated(MutationModel::AddByte { index, amount }, prefix, dictionary).unwrap();
    let down = mutated(MutationModel::SubByte { index, amount }, prefix, dictionary).unwrap();
    assert(up.update(index as int, prefix[index as int]) =~= prefix);
    assert(down.update(index as int, prefix[index as int]) =~= prefix);
}

/// Inserted bytes stand at their place: before them stand the bytes of the path up to it, behind
/// them the bytes from it on. Deleting them again gives the path back.
pub proof fn inserted_bytes_stand_at_their_place(
    index: usize,
    bytes: Seq<u8>,
    prefix: Seq<u8>,
    dictionary: Seq<Seq<u8>>,
)
    ensures
        mutated(MutationModel::InsertBytes { index, bytes }, prefix, dictionary) is Some
            <==> index <= prefix.len(),
        mutated(MutationModel::InsertBytes { index, bytes }, prefix, dictionary) matches Some(after)
            ==> {
            &&& after.len() == prefix.len() + bytes.len()
            &&& after.subrange(0, index as int) == prefix.subrange(0, index as int)
            &&& after.subrange(index as int, index + bytes.len()) == bytes
            &&& after.subrange(index + bytes.len(), after.len() as int) == prefix.subrange(
                index as int,
                prefix.len() as int,
            )
            &&& 0 < bytes.len() <= usize::MAX ==> mutated(
                MutationModel::DeleteRange {
                    start: index,
                    len: bytes.len() as usize,
                    first_byte: FirstByteAdjustment::Keep,
                },
                after,
                dictionary,
            ) == Some(prefix)
        },
{
    if let Some(after) = mutated(
        MutationModel::InsertBytes { index, bytes },
        prefix,
        dictionary,
    ) {
        assert(after.subrange(0, index as int) =~= prefix.subrange(0, index as int));
        assert(after.subrange(index as int, index + bytes.len()) =~= bytes);
        assert(after.subrange(index + bytes.len(), after.len() as int) =~= prefix.subrange(
            index as int,
            prefix.len() as int,
        ));
        if 0 < bytes.len() <= usize::MAX {
            let back = mutated(
                MutationModel::DeleteRange {
                    start: index,
                    len: bytes.len() as usize,
                    first_byte: FirstByteAdjustment::Keep,
                },
                after,
                dictionary,
            );
            assert(back.unwrap() =~= prefix);
        }
    }
}

/// Inserting a dictionary value is inserting its bytes: the path up to the place, the value, the
/// path from the place on. A value that the dictionary lacks does not fit.
pub proof fn inserting_a_value_inserts_its_bytes(
    index: usize,
    dictionary_index: usize,
    prefix: Seq<u8>,
    dictionary: Seq<Seq<u8>>,
)
    ensures
        mutated(
            MutationModel::InsertDictionary { index, dictionary_index },
            prefix,
            dictionary,
        ) is Some <==> index <= prefix.len() && dictionary_index < dictionary.len(),
        index <= prefix.len() && dictionary_index < dictionary.len() ==> mutated(
            MutationModel::InsertDictionary { index, dictionary_index },
            prefix,
            dictionary,
        ) == Some(
            prefix.subrange(0, index as int) + dictionary[dictionary_index as int]
                + prefix.subrange(index as int, prefix.len() as int),
        ),
        dictionary_index < dictionary.len() ==> mutated(
            MutationModel::InsertDictionary { index, dictionary_index },
            prefix,
            dictionary,
        ) == mutated(
            MutationModel::InsertBytes { index, bytes: dictionary[dictionary_index as int] },
            prefix,
            dictionary,
        ),
{
    if let Some(after) = mutated(
        MutationModel::InsertDictionary { index, dictionary_index },
        prefix,
        dictionary,
    ) {
        assert(after =~= prefix.subrange(0, index as int) + dictionary[dictionary_index as int]
            + prefix.subrange(index as int, prefix.len() as int));
    }
}

/// Replacing a range by a dictionary value is deleting the range and inserting the value there;
/// an exact replacement keeps the length of the path.
pub proof fn replacing_is_deleting_and_inserting(
    start: usize,
    len: usize,
    dictionary_index: usize,
    mode: ReplaceMode,
    prefix: Seq<u8>,
    dictionary: Seq<Seq<u8>>,
)
    requires
        dictionary_index < dictionary.len(),
    ensures
        ({
            let value = dictionary[dictionary_index as int];
            let after = mutated(
                MutationModel::ReplaceDictionary { start, len, dictionary_index, mode },
                prefix,
                dictionary,
            );
            &&& after is Some <==> start + len <= prefix.len() && (mode == ReplaceMode::Exact
                ==> value.len() == len)
            &&& after is Some && mode == ReplaceMode::Exact ==> after.unwrap().len()
                == prefix.len()
            &&& after is Some ==> after == Some(
                prefix.subrange(0, start as int) + value + prefix.subrange(
                    start + len,
                    prefix.len() as int,
                ),
            )
            &&& after is Some && len > 0 ==> (mutated(
                MutationModel::DeleteRange { start, len, first_byte: FirstByteAdjustment::Keep },
                prefix,
                dictionary,
            ) matches Some(deleted) && after == mutated(
                MutationModel::InsertDictionary { index: start, dictionary_index },
                deleted,
                dictionary,
            ))
        }),
{
    let value = dictionary[dictionary_index as int];
    if start + len <= prefix.len() {
        assert(spliced(prefix, start as int, len as int, value) =~= prefix.subrange(0, start as int)
            + value + prefix.subrange(start + len, prefix.len() as int));
        if len > 0 {
            let deleted = mutated(
                MutationModel::DeleteRange { start, len, first_byte: FirstByteAdjustment::Keep },
                prefix,
                dictionary,
            ).unwrap();
            assert(deleted =~= prefix.take(start as int) + prefix.skip(start + len));
            assert(spliced(deleted, start as int, 0, value) =~= spliced(
                prefix,
                start as int,
                len as int,
                value,
            ));
        }
    }
}

/// A deleted range is gone and the bytes around it close up; only the byte that is then first is
/// lowered, by the number of deleted bytes or by a given amount, and never below zero.
pub proof fn deleted_ranges_close_up(
    start: usize,
    len: usize,
    first_byte: FirstByteAdjustment,
    prefix: Seq<u8>,
    dictionary: Seq<Seq<u8>>,
)
    ensures
        ({
            let rest = prefix.subrange(0, start as int) + prefix.subrange(
                start + len,
                prefix.len() as int,
            );
            let after = mutated(
                MutationModel::DeleteRange { start, len, first_byte },
                prefix,
                dictionary,
            );
            &&& after is Some <==> 0 < len && start + len <= prefix.len()
            &&& after matches Some(after) ==> {
                &&& after.len() + len == prefix.len()
                &&& forall|i: int| 0 < i < after.len() ==> #[trigger] after[i] == rest[i]
                &&& after.len() > 0 ==> ({
                    let amount = match first_byte {
                        FirstByteAdjustment::Keep => 0,
                        FirstByteAdjustment::ByDeletedLen => len as int,
                        FirstByteAdjustment::ByValue(by) => by as int,
                    };
                    if amount <= rest[0] {
                        after[0] + amount == rest[0]
                    } else {
                        after[0] == 0
                    }
                })
            }
        }),
{
}

/// Cutting a path after so many bytes and dropping as many from its front part it in two.
pub proof fn cuts_part_the_path(len: usize, prefix: Seq<u8>, dictionary: Seq<Seq<u8>>)
    requires
        0 < len < prefix.len(),
    ensures
        mutated(MutationModel::Truncate { len, leading_sub: None }, prefix, dictionary) matches Some(
            front,
        ) && front.len() == len && (mutated(
            MutationModel::DrainPrefix { keep_from: len },
            prefix,
            dictionary,
        ) matches Some(back) && front + back == prefix),
{
    let front = mutated(
        MutationModel::Truncate { len, leading_sub: None },
        prefix,
        dictionary,
    ).unwrap();
    let back = mutated(MutationModel::DrainPrefix { keep_from: len }, prefix, dictionary).unwrap();
    assert(front =~= prefix.take(len as int));
    assert(front + back =~= prefix);
}

/// A cut shortens the path, and lowers its first byte by no more than it is told; nothing is
/// dropped where nothing would be left out.
pub proof fn cuts_shorten_the_path(
    len: usize,
    leading_sub: Option<u8>,
    prefix: Seq<u8>,
    dictionary: Seq<Seq<u8>>,
)
    ensures
        mutated(MutationModel::Truncate { len, leading_sub }, prefix, dictionary) is Some <==> len
            < prefix.len(),
        mutated(MutationModel::DrainPrefix { keep_from: len }, prefix, dictionary) is Some <==> 0
            < len <= prefix.len(),
        mutated(MutationModel::Truncate { len, leading_sub }, prefix, dictionary) matches Some(
            after,
        ) ==> {
            &&& after.len() == len
            &&& forall|i: int| 0 < i < len ==> #[trigger] after[i] == prefix[i]
            &&& len > 0 && leading_sub is None ==> after[0] == prefix[0]
            &&& len > 0 && leading_sub is Some ==> after[0] == if leading_sub.unwrap()
                <= prefix[0] {
                prefix[0] - leading_sub.unwrap()
            } else {
                0
            }
        },
{
}

/// Filling a range puts the bytes there and keeps the rest, and filling it with what stood there
/// gives the path back.
pub proof fn filled_ranges_hold_the_bytes(
    start: usize,
    bytes: Seq<u8>,
    prefix: Seq<u8>,
    dictionary: Seq<Seq<u8>>,
)
    ensures
        mutated(MutationModel::FillRange { start, bytes }, prefix, dictionary) is Some <==> start
            + bytes.len() <= prefix.len(),
        mutated(MutationModel::FillRange { start, bytes }, prefix, dictionary) matches Some(after)
            ==> {
            &&& after.len() == prefix.len()
            &&& forall|i: int|
                0 <= i < prefix.len() ==> #[trigger] after[i] == if start <= i < start
                    + bytes.len() {
                    bytes[i - start]
                } else {
                    prefix[i]
                }
            &&& mutated(
                MutationModel::FillRange {
                    start,
                    bytes: prefix.subrange(start as int, start + bytes.len()),
                },
                after,
                dictionary,
            ) == Some(prefix)
        },
{
    if let Some(after) = mutated(MutationModel::FillRange { start, bytes }, prefix, dictionary) {
        let old_bytes = prefix.subrange(start as int, start + bytes.len());
        assert(spliced(after, start as int, old_bytes.len() as int, old_bytes) =~= prefix);
    }
}

/// Zeroing a range is filling it with zeros, and zeroing a repeated value clears that value
/// wherever it stands and nothing else.
pub proof fn zeroed_bytes_are_zero(
    start: usize,
    len: usize,
    value: u8,
    prefix: Seq<u8>,
    dictionary: Seq<Seq<u8>>,
)
    ensures
        mutated(MutationModel::ZeroRange { start, len }, prefix, dictionary) is Some <==> 0 < len
            && start + len <= prefix.len(),
        mutated(MutationModel::ZeroRange { start, len }, prefix, dictionary) matches Some(after)
            ==> after.len() == prefix.len() && forall|i: int|
            0 <= i < prefix.len() ==> #[trigger] after[i] == if start <= i < start + len {
                0
            } else {
                prefix[i]
            },
        mutated(MutationModel::ZeroRepeated { value }, prefix, dictionary) is Some <==> value != 0
            && exists|i: int| 0 <= i < prefix.len() && prefix[i] == value,
        mutated(MutationModel::ZeroRepeated { value }, prefix, dictionary) matches Some(after)
            ==> after.len() == prefix.len() && forall|i: int|
            0 <= i < prefix.len() ==> #[trigger] after[i] == if prefix[i] == value {
                0
            } else {
                prefix[i]
            },
{
}

/// A word that was set is read back from its place; behind it zeros reach to the given end, and
/// every other byte stays.
pub proof fn set_words_are_read_back(
    start: usize,
    width: usize,
    word: u64,
    zero_until: Option<usize>,
    prefix: Seq<u8>,
    dictionary: Seq<Seq<u8>>,
)
    requires
        word < crate::targets::pow256(width as nat),
    ensures
        mutated(
            MutationModel::SetWord { start, width, word, zero_until },
            prefix,
            dictionary,
        ) is Some <==> start + width <= prefix.len(),
        mutated(
            MutationModel::SetWord { start, width, word, zero_until },
            prefix,
            dictionary,
        ) matches Some(after) ==> {
            let end = match zero_until {
                Some(end) => if start + width < end <= prefix.len() {
                    end as int
                } else {
                    start + width
                },
                None => start + width,
            };
            &&& after.len() == prefix.len()
            &&& crate::targets::le_value(after.subrange(start as int, start + width)) == word
            &&& forall|i: int|
                0 <= i < prefix.len() && !(start <= i < start + width) ==> #[trigger] after[i]
                    == if start + width <= i < end {
                    0
                } else {
                    prefix[i]
                }
        },
{
    lemma_le_bytes(word as int, width as nat);
    if let Some(after) = mutated(
        MutationModel::SetWord { start, width, word, zero_until },
        prefix,
        dictionary,
    ) {
        crate::targets::le_round_trips(word as int, width as nat);
        assert(after.subrange(start as int, start + width) =~= le_bytes(word as int, width as nat));
    }
}

/// A rewrite of a sequence writes the number of items that are left where the length stands, and
/// puts the kept items' bytes in place of the range, one after the other; a deletion keeps none.
pub proof fn sequences_are_recounted(
    length_start: usize,
    length_width: usize,
    target_len: usize,
    start: usize,
    len: usize,
    items: Seq<KeptItem>,
    prefix: Seq<u8>,
    dictionary: Seq<Seq<u8>>,
)
    requires
        0 < length_width,
        length_start + length_width <= start,
        start + len <= prefix.len(),
        0 < len,
        target_len < crate::targets::pow256(length_width as nat),
        items_fit(items, prefix.len() as int),
    ensures
        ({
            let deleted = mutated(
                MutationModel::DeleteSequenceItems {
                    length_start,
                    length_width,
                    target_len,
                    start,
                    len,
                },
                prefix,
                dictionary,
            );
            let projected = mutated(
                MutationModel::ProjectSequenceItems {
                    length_start,
                    length_width,
                    target_len,
                    replace_start: start,
                    replace_len: len,
                    items,
                },
                prefix,
                dictionary,
            );
            let at = length_start as int;
            let behind = length_start + length_width;
            &&& deleted is Some
            &&& projected is Some
            &&& crate::targets::le_value(deleted.unwrap().subrange(at, behind)) == target_len
            &&& crate::targets::le_value(projected.unwrap().subrange(at, behind)) == target_len
            &&& deleted.unwrap().subrange(0, at) == prefix.subrange(0, at)
            &&& deleted.unwrap().skip(behind) == prefix.subrange(behind, start as int)
                + prefix.skip(start + len)
            &&& projected.unwrap().subrange(0, at) == prefix.subrange(0, at)
            &&& projected.unwrap().skip(behind) == prefix.subrange(behind, start as int)
                + kept_bytes(prefix, items) + prefix.skip(start + len)
        }),
{
    let word = le_bytes(target_len as int, length_width as nat);
    lemma_le_bytes(target_len as int, length_width as nat);
    crate::targets::le_round_trips(target_len as int, length_width as nat);
    let at = length_start as int;
    let behind = length_start + length_width;
    let counted = spliced(prefix, at, length_width as int, word);
    let kept = kept_bytes(prefix, items);
    let deleted = spliced(counted, start as int, len as int, Seq::empty());
    let projected = spliced(counted, start as int, len as int, kept);
    assert(deleted.subrange(at, behind) =~= word);
    assert(projected.subrange(at, behind) =~= word);
    assert(deleted.subrange(0, at) =~= prefix.subrange(0, at));
    assert(projected.subrange(0, at) =~= prefix.subrange(0, at));
    assert(deleted.skip(behind) =~= prefix.subrange(behind, start as int) + prefix.skip(
        start + len,
    ));
    assert(projected.skip(behind) =~= prefix.subrange(behind, start as int) + kept + prefix.skip(
        start + len,
    ));
}

/// The kept bytes are those of the items, each whole and in their order.
pub proof fn kept_items_stand_in_order(prefix: Seq<u8>, items: Seq<KeptItem>, item: KeptItem)
    ensures
        kept_bytes(prefix, Seq::empty()) == Seq::<u8>::empty(),
        kept_bytes(prefix, items.push(item)) == kept_bytes(prefix, items) + prefix.subrange(
            item.start as int,
            item.start + item.len,
        ),
{
    assert(items.push(item).drop_last() =~= items);
}

/// Of several writes the last one is read back, and no byte outside all of them changes.
pub proof fn the_last_write_is_read_back(
    writes: Seq<ScalarRankWrite>,
    prefix: Seq<u8>,
    dictionary: Seq<Seq<u8>>,
)
    requires
        writes.len() > 0,
        writes_fit(writes, prefix.len() as int),
        writes.last().value < crate::targets::pow256(writes.last().width as nat),
    ensures
        mutated(MutationModel::SetScalarRanks { writes }, prefix, dictionary) matches Some(after)
            && after.len() == prefix.len() && crate::targets::le_value(
            after.subrange(
                writes.last().start as int,
                writes.last().start + writes.last().width,
            ),
        ) == writes.last().value && forall|i: int|
            0 <= i < prefix.len() && (forall|k: int|
                0 <= k < writes.len() ==> !((#[trigger] writes[k]).start <= i < writes[k].start
                    + writes[k].width)) ==> #[trigger] after[i] == prefix[i],
{
    let last = writes.last();
    assert(last == writes[writes.len() - 1]);
    lemma_written_len(prefix, writes);
    lemma_writes_keep(prefix, writes);
    lemma_le_bytes(last.value as int, last.width as nat);
    crate::targets::le_round_trips(last.value as int, last.width as nat);
    let after = written(prefix, writes);
    assert forall|i: int| 0 <= i < writes.drop_last().len() implies {
        &&& 0 < (#[trigger] writes.drop_last()[i]).width <= 16
        &&& within(
            writes.drop_last()[i].start as int,
            writes.drop_last()[i].width as int,
            prefix.len() as int,
        )
    } by {
        assert(writes.drop_last()[i] == writes[i]);
    }
    lemma_written_len(prefix, writes.drop_last());
    assert(after.subrange(last.start as int, last.start + last.width) =~= le_bytes(
        last.value as int,
        last.width as nat,
    ));
}

proof fn lemma_writes_keep(prefix: Seq<u8>, writes: Seq<ScalarRankWrite>)
    requires
        writes_fit(writes, prefix.len() as int),
    ensures
        forall|i: int|
            0 <= i < prefix.len() && (forall|k: int|
                0 <= k < writes.len() ==> !((#[trigger] writes[k]).start <= i < writes[k].start
                    + writes[k].width)) ==> #[trigger] written(prefix, writes)[i] == prefix[i],
    decreases writes.len(),
{
    if writes.len() > 0 {
        let fewer = writes.drop_last();
        let last = writes.last();
        assert(last == writes[writes.len() - 1]);
        assert forall|i: int| 0 <= i < fewer.len() implies {
            &&& 0 < (#[trigger] fewer[i]).width <= 16
            &&& within(fewer[i].start as int, fewer[i].width as int, prefix.len() as int)
        } by {
            assert(fewer[i] == writes[i]);
        }
        lemma_writes_keep(prefix, fewer);
        lemma_written_len(prefix, fewer);
        lemma_le_bytes(last.value as int, last.width as nat);
        assert forall|i: int|
            0 <= i < prefix.len() && (forall|k: int|
                0 <= k < writes.len() ==> !((#[trigger] writes[k]).start <= i < writes[k].start
                    + writes[k].width)) implies #[trigger] written(prefix, writes)[i]
            == prefix[i] by {
            assert forall|k: int| 0 <= k < fewer.len() implies !((#[trigger] fewer[k]).start <= i
                < fewer[k].start + fewer[k].width) by {
                assert(fewer[k] == writes[k]);
            }
            assert(written(prefix, fewer)[i] == prefix[i]);
            assert(!(writes[writes.len() - 1].start <= i < writes[writes.len() - 1].start
                + writes[writes.len() - 1].width));
        }
    }
}

} // verus!
