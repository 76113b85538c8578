//! What an execution consumed and drew, and its form between processes.

use crate::coverage::{
    ascending_ids, ascending_ids_are_unique, CoverageId, CoverageSet, ExecutionFeedback,
    FeedbackModel,
};
use crate::score::CaseCost;
use crate::text::{decimal_text, push_decimal};
use crate::virtual_time::memory::{push_word, read_word, word_at, word_bytes, words_round_trip};
use vstd::prelude::*;
use vstd::slice::slice_subrange;

verus! {

/// How bytes were drawn.
#[derive(Debug, Clone, Copy, PartialEq, Eq, Structural)]
pub enum DrawKind {
    /// As one number.
    Word,
    /// As they are.
    Bytes,
}

/// Bytes that were drawn at once.
#[derive(Debug, Clone, Copy, PartialEq, Eq, Structural)]
pub struct DrawRecord {
    pub start: usize,
    pub len: usize,
    pub kind: DrawKind,
}

/// What bytes were drawn for.
#[derive(Debug, Clone, Copy, PartialEq, Eq, Structural)]
pub enum SemanticKind {
    /// The length of a sequence.
    Length,
    /// An item of a sequence.
    Item,
    /// A choice among variants.
    Variant,
}

/// Bytes with a meaning.
#[derive(Debug, Clone, Copy, PartialEq, Eq, Structural)]
pub struct SemanticSpan {
    pub start: usize,
    pub len: usize,
    pub kind: SemanticKind,
}

/// The bytes of one item.
#[derive(Debug, Clone, Copy, PartialEq, Eq, Structural)]
pub struct ItemRecord {
    pub start: usize,
    pub len: usize,
}

/// A generated sequence: where its length stands, and its items.
#[derive(Debug, PartialEq, Eq)]
pub struct SequenceRecord {
    pub length_start: usize,
    pub length_len: usize,
    pub items: Vec<ItemRecord>,
}

/// A generated sequence by its contents.
#[verifier::ext_equal]
pub struct SequenceRecordModel {
    pub length_start: usize,
    pub length_len: usize,
    pub items: Seq<ItemRecord>,
}

impl View for SequenceRecord {
    type V = SequenceRecordModel;

    open spec fn view(&self) -> SequenceRecordModel {
        SequenceRecordModel {
            length_start: self.length_start,
            length_len: self.length_len,
            items: self.items@,
        }
    }
}

/// The contents of a list of sequences.
pub open spec fn record_models(sequences: Seq<SequenceRecord>) -> Seq<SequenceRecordModel> {
    sequences.map_values(|sequence: SequenceRecord| sequence@)
}

/// Everything that is needed to record an execution that ran in another process.
#[derive(Debug, PartialEq, Eq)]
pub struct DetachedExecution {
    pub trace: Vec<u8>,
    pub draws: Vec<DrawRecord>,
    pub semantics: Vec<SemanticSpan>,
    pub sequences: Vec<SequenceRecord>,
    pub bytes_consumed: usize,
    pub feedback: Option<ExecutionFeedback>,
    pub case_cost: CaseCost,
}

/// A detached execution by its contents.
#[verifier::ext_equal]
pub struct ExecutionModel {
    pub trace: Seq<u8>,
    pub draws: Seq<DrawRecord>,
    pub semantics: Seq<SemanticSpan>,
    pub sequences: Seq<SequenceRecordModel>,
    pub bytes_consumed: usize,
    pub feedback: Option<FeedbackModel>,
    pub case_cost: CaseCost,
}

impl View for DetachedExecution {
    type V = ExecutionModel;

    open spec fn view(&self) -> ExecutionModel {
        ExecutionModel {
            trace: self.trace@,
            draws: self.draws@,
            semantics: self.semantics@,
            sequences: record_models(self.sequences@),
            bytes_consumed: self.bytes_consumed,
            feedback: match self.feedback {
                Some(feedback) => Some(feedback@),
                None => None,
            },
            case_cost: self.case_cost,
        }
    }
}

/// Why bytes are no execution.
#[derive(Debug, Clone, Copy, PartialEq, Eq, Structural)]
pub enum DecodeError {
    /// They end too early.
    Truncated,
    /// A length or a place does not fit this machine.
    Overflow,
    /// There is no such draw kind.
    BadDrawKind(u8),
    /// There is no such semantic kind.
    BadSemanticKind(u8),
    /// There is no such feedback tag.
    BadFeedbackTag(u8),
    /// They go on behind the end.
    Trailing,
}

impl DecodeError {
    /// The message of the error.
    pub open spec fn text(self) -> Seq<char> {
        match self {
            DecodeError::Truncated => "truncated detached execution"@,
            DecodeError::Overflow => "value overflows usize"@,
            DecodeError::BadDrawKind(kind) => "bad draw kind "@ + decimal_text(kind as nat),
            DecodeError::BadSemanticKind(kind) => "bad semantic kind "@ + decimal_text(
                kind as nat,
            ),
            DecodeError::BadFeedbackTag(tag) => "bad feedback tag "@ + decimal_text(tag as nat),
            DecodeError::Trailing => "trailing bytes in detached execution"@,
        }
    }

    /// The message of the error.
    pub fn message(self) -> (text: String)
        ensures
            text@ == self.text(),
    {
        match self {
            DecodeError::Truncated => "truncated detached execution".to_owned(),
            DecodeError::Overflow => "value overflows usize".to_owned(),
            DecodeError::BadDrawKind(kind) => {
                let mut text = "bad draw kind ".to_owned();
                push_decimal(&mut text, kind as u64);
                text
            },
            DecodeError::BadSemanticKind(kind) => {
                let mut text = "bad semantic kind ".to_owned();
                push_decimal(&mut text, kind as u64);
                text
            },
            DecodeError::BadFeedbackTag(tag) => {
                let mut text = "bad feedback tag ".to_owned();
                push_decimal(&mut text, tag as u64);
                text
            },
            DecodeError::Trailing => "trailing bytes in detached execution".to_owned(),
        }
    }
}

/// A length, then as many bytes.
#[verifier::opaque]
pub open spec fn encoded_bytes(bytes: Seq<u8>) -> Seq<u8> {
    word_bytes(bytes.len() as u64) + bytes
}

pub open spec fn draw_tag(kind: DrawKind) -> u8 {
    match kind {
        DrawKind::Word => 0,
        DrawKind::Bytes => 1,
    }
}

pub open spec fn semantic_tag(kind: SemanticKind) -> u8 {
    match kind {
        SemanticKind::Length => 0,
        SemanticKind::Item => 1,
        SemanticKind::Variant => 2,
    }
}

pub open spec fn encoded_draw(draw: DrawRecord) -> Seq<u8> {
    word_bytes(draw.start as u64) + word_bytes(draw.len as u64) + seq![draw_tag(draw.kind)]
}

pub open spec fn encoded_semantic(span: SemanticSpan) -> Seq<u8> {
    word_bytes(span.start as u64) + word_bytes(span.len as u64) + seq![semantic_tag(span.kind)]
}

pub open spec fn encoded_item(item: ItemRecord) -> Seq<u8> {
    word_bytes(item.start as u64) + word_bytes(item.len as u64)
}

/// The codes of the parts, one after the other.
pub open spec fn joined<T>(parts: Seq<T>, code: spec_fn(T) -> Seq<u8>) -> Seq<u8>
    decreases parts.len(),
{
    if parts.len() == 0 {
        Seq::empty()
    } else {
        code(parts[0]) + joined(parts.skip(1), code)
    }
}

/// The number of parts, then their codes.
#[verifier::opaque]
pub open spec fn encoded_list<T>(parts: Seq<T>, code: spec_fn(T) -> Seq<u8>) -> Seq<u8> {
    word_bytes(parts.len() as u64) + joined(parts, code)
}

pub open spec fn draw_code() -> spec_fn(DrawRecord) -> Seq<u8> {
    |draw: DrawRecord| encoded_draw(draw)
}

pub open spec fn semantic_code() -> spec_fn(SemanticSpan) -> Seq<u8> {
    |span: SemanticSpan| encoded_semantic(span)
}

pub open spec fn item_code() -> spec_fn(ItemRecord) -> Seq<u8> {
    |item: ItemRecord| encoded_item(item)
}

pub open spec fn encoded_sequence(sequence: SequenceRecordModel) -> Seq<u8> {
    word_bytes(sequence.length_start as u64) + word_bytes(sequence.length_len as u64)
        + encoded_list(sequence.items, item_code())
}

pub open spec fn sequence_code() -> spec_fn(SequenceRecordModel) -> Seq<u8> {
    |sequence: SequenceRecordModel| encoded_sequence(sequence)
}

pub open spec fn id_code() -> spec_fn(CoverageId) -> Seq<u8> {
    |id: CoverageId| word_bytes(id.0)
}

pub open spec fn value_code() -> spec_fn(Seq<u8>) -> Seq<u8> {
    |value: Seq<u8>| encoded_bytes(value)
}

/// A tag, then the feedback if there is any.
#[verifier::opaque]
pub open spec fn encoded_feedback(feedback: Option<FeedbackModel>) -> Seq<u8> {
    match feedback {
        None => seq![0u8],
        Some(feedback) => seq![1u8] + encoded_list(ascending_ids(feedback.features), id_code())
            + word_bytes(feedback.hit_count_weight) + encoded_list(
            feedback.dictionary,
            value_code(),
        ),
    }
}

/// The form of an execution between processes.
pub open spec fn encoded(execution: ExecutionModel) -> Seq<u8> {
    encoded_bytes(execution.trace) + encoded_list(execution.draws, draw_code()) + encoded_list(
        execution.semantics,
        semantic_code(),
    ) + encoded_list(execution.sequences, sequence_code()) + word_bytes(
        execution.bytes_consumed as u64,
    ) + word_bytes(execution.case_cost.0 as u64) + encoded_feedback(execution.feedback)
}

proof fn lemma_joined_push<T>(parts: Seq<T>, part: T, code: spec_fn(T) -> Seq<u8>)
    ensures
        joined(parts.push(part), code) == joined(parts, code) + code(part),
    decreases parts.len(),
{
    let more = parts.push(part);
    if parts.len() == 0 {
        assert(more.skip(1) =~= Seq::<T>::empty());
        assert(joined(more.skip(1), code) == Seq::<u8>::empty());
        assert(joined(more, code) == code(part) + Seq::<u8>::empty());
        assert(code(part) + Seq::<u8>::empty() =~= joined(parts, code) + code(part));
    } else {
        assert(more.skip(1) =~= parts.skip(1).push(part));
        lemma_joined_push(parts.skip(1), part, code);
        assert(joined(more, code) =~= joined(parts, code) + code(part));
    }
}

/// What is read from the front of the bytes, and what is left of them.
pub type Taken<T> = Result<(T, Seq<u8>), DecodeError>;

pub open spec fn take_word(bytes: Seq<u8>) -> Taken<u64> {
    if bytes.len() >= 8 {
        Ok((word_at(bytes, 0), bytes.skip(8)))
    } else {
        Err(DecodeError::Truncated)
    }
}

pub open spec fn take_size(bytes: Seq<u8>) -> Taken<usize> {
    match take_word(bytes) {
        Ok((word, rest)) => if word <= usize::MAX {
            Ok((word as usize, rest))
        } else {
            Err(DecodeError::Overflow)
        },
        Err(error) => Err(error),
    }
}

pub open spec fn take_byte(bytes: Seq<u8>) -> Taken<u8> {
    if bytes.len() >= 1 {
        Ok((bytes[0], bytes.skip(1)))
    } else {
        Err(DecodeError::Truncated)
    }
}

#[verifier::opaque]
pub open spec fn take_bytes(bytes: Seq<u8>) -> Taken<Seq<u8>> {
    match take_size(bytes) {
        Ok((len, rest)) => if len <= rest.len() {
            Ok((rest.take(len as int), rest.skip(len as int)))
        } else {
            Err(DecodeError::Truncated)
        },
        Err(error) => Err(error),
    }
}

/// Two sizes.
#[verifier::opaque]
pub open spec fn take_pair(bytes: Seq<u8>) -> Taken<(usize, usize)> {
    match take_size(bytes) {
        Ok((start, rest)) => match take_size(rest) {
            Ok((len, rest)) => Ok(((start, len), rest)),
            Err(error) => Err(error),
        },
        Err(error) => Err(error),
    }
}

pub open spec fn take_draw(bytes: Seq<u8>) -> Taken<DrawRecord> {
    match take_pair(bytes) {
        Ok(((start, len), rest)) => match take_byte(rest) {
            Ok((tag, rest)) => if tag == 0 {
                Ok((DrawRecord { start, len, kind: DrawKind::Word }, rest))
            } else if tag == 1 {
                Ok((DrawRecord { start, len, kind: DrawKind::Bytes }, rest))
            } else {
                Err(DecodeError::BadDrawKind(tag))
            },
            Err(error) => Err(error),
        },
        Err(error) => Err(error),
    }
}

pub open spec fn take_semantic(bytes: Seq<u8>) -> Taken<SemanticSpan> {
    match take_pair(bytes) {
        Ok(((start, len), rest)) => match take_byte(rest) {
            Ok((tag, rest)) => if tag == 0 {
                Ok((SemanticSpan { start, len, kind: SemanticKind::Length }, rest))
            } else if tag == 1 {
                Ok((SemanticSpan { start, len, kind: SemanticKind::Item }, rest))
            } else if tag == 2 {
                Ok((SemanticSpan { start, len, kind: SemanticKind::Variant }, rest))
            } else {
                Err(DecodeError::BadSemanticKind(tag))
            },
            Err(error) => Err(error),
        },
        Err(error) => Err(error),
    }
}

pub open spec fn take_item(bytes: Seq<u8>) -> Taken<ItemRecord> {
    match take_pair(bytes) {
        Ok(((start, len), rest)) => Ok((ItemRecord { start, len }, rest)),
        Err(error) => Err(error),
    }
}

pub open spec fn take_id(bytes: Seq<u8>) -> Taken<CoverageId> {
    match take_word(bytes) {
        Ok((word, rest)) => Ok((CoverageId(word), rest)),
        Err(error) => Err(error),
    }
}

pub open spec fn draw_parser() -> spec_fn(Seq<u8>) -> Taken<DrawRecord> {
    |bytes: Seq<u8>| take_draw(bytes)
}

pub open spec fn semantic_parser() -> spec_fn(Seq<u8>) -> Taken<SemanticSpan> {
    |bytes: Seq<u8>| take_semantic(bytes)
}

pub open spec fn item_parser() -> spec_fn(Seq<u8>) -> Taken<ItemRecord> {
    |bytes: Seq<u8>| take_item(bytes)
}

pub open spec fn id_parser() -> spec_fn(Seq<u8>) -> Taken<CoverageId> {
    |bytes: Seq<u8>| take_id(bytes)
}

pub open spec fn value_parser() -> spec_fn(Seq<u8>) -> Taken<Seq<u8>> {
    |bytes: Seq<u8>| take_bytes(bytes)
}

pub open spec fn sequence_parser() -> spec_fn(Seq<u8>) -> Taken<SequenceRecordModel> {
    |bytes: Seq<u8>| take_sequence(bytes)
}

/// `n` more parts behind those that are there.
pub open spec fn take_parts<T>(
    bytes: Seq<u8>,
    n: nat,
    parts: Seq<T>,
    parser: spec_fn(Seq<u8>) -> Taken<T>,
) -> Taken<Seq<T>>
    decreases n,
{
    if n == 0 {
        Ok((parts, bytes))
    } else {
        match parser(bytes) {
            Ok((part, rest)) => take_parts(rest, (n - 1) as nat, parts.push(part), parser),
            Err(error) => Err(error),
        }
    }
}

/// A number of parts, then the parts.
#[verifier::opaque]
pub open spec fn take_list<T>(bytes: Seq<u8>, parser: spec_fn(Seq<u8>) -> Taken<T>) -> Taken<
    Seq<T>,
> {
    match take_word(bytes) {
        Ok((count, rest)) => take_parts(rest, count as nat, Seq::empty(), parser),
        Err(error) => Err(error),
    }
}

pub open spec fn take_sequence(bytes: Seq<u8>) -> Taken<SequenceRecordModel> {
    match take_pair(bytes) {
        Ok(((length_start, length_len), rest)) => match take_list(rest, item_parser()) {
            Ok((items, rest)) => Ok(
                (SequenceRecordModel { length_start, length_len, items }, rest),
            ),
            Err(error) => Err(error),
        },
        Err(error) => Err(error),
    }
}

#[verifier::opaque]
pub open spec fn take_feedback(bytes: Seq<u8>) -> Taken<Option<FeedbackModel>> {
    match take_byte(bytes) {
        Err(error) => Err(error),
        Ok((tag, rest)) => if tag == 0 {
            Ok((None, rest))
        } else if tag == 1 {
            match take_list(rest, id_parser()) {
                Err(error) => Err(error),
                Ok((ids, rest)) => match take_word(rest) {
                    Err(error) => Err(error),
                    Ok((hit_count_weight, rest)) => match take_list(rest, value_parser()) {
                        Err(error) => Err(error),
                        Ok((dictionary, rest)) => Ok(
                            (
                                Some(
                                    FeedbackModel {
                                        features: ids.to_set(),
                                        hit_count_weight,
                                        dictionary,
                                    },
                                ),
                                rest,
                            ),
                        ),
                    },
                },
            }
        } else {
            Err(DecodeError::BadFeedbackTag(tag))
        },
    }
}

/// The spans of an execution: its trace, its draws, its semantics and its sequences.
pub open spec fn take_spans(bytes: Seq<u8>) -> Taken<
    (Seq<u8>, Seq<DrawRecord>, Seq<SemanticSpan>, Seq<SequenceRecordModel>),
> {
    match take_bytes(bytes) {
        Err(error) => Err(error),
        Ok((trace, rest)) => match take_list(rest, draw_parser()) {
            Err(error) => Err(error),
            Ok((draws, rest)) => match take_list(rest, semantic_parser()) {
                Err(error) => Err(error),
                Ok((semantics, rest)) => match take_list(rest, sequence_parser()) {
                    Err(error) => Err(error),
                    Ok((sequences, rest)) => Ok(((trace, draws, semantics, sequences), rest)),
                },
            },
        },
    }
}

/// An execution from the front of the bytes.
pub open spec fn take_execution(bytes: Seq<u8>) -> Taken<ExecutionModel> {
    match take_spans(bytes) {
        Err(error) => Err(error),
        Ok(((trace, draws, semantics, sequences), rest)) => match take_pair(rest) {
            Err(error) => Err(error),
            Ok(((bytes_consumed, cost), rest)) => match take_feedback(rest) {
                Err(error) => Err(error),
                Ok((feedback, rest)) => Ok(
                    (
                        ExecutionModel {
                            trace,
                            draws,
                            semantics,
                            sequences,
                            bytes_consumed,
                            feedback,
                            case_cost: CaseCost(cost),
                        },
                        rest,
                    ),
                ),
            },
        },
    }
}

/// The execution that the bytes are, or why they are none.
pub open spec fn decoded(bytes: Seq<u8>) -> Result<ExecutionModel, DecodeError> {
    match take_execution(bytes) {
        Err(error) => Err(error),
        Ok((execution, rest)) => if rest.len() > 0 {
            Err(DecodeError::Trailing)
        } else {
            Ok(execution)
        },
    }
}

proof fn lemma_take_word(word: u64, rest: Seq<u8>)
    ensures
        take_word(word_bytes(word) + rest) == Ok::<(u64, Seq<u8>), DecodeError>((word, rest)),
{
    words_round_trip(Seq::empty(), word, rest);
    assert(Seq::<u8>::empty() + word_bytes(word) + rest =~= word_bytes(word) + rest);
    assert((word_bytes(word) + rest).skip(8) =~= rest);
}

proof fn lemma_take_size(size: usize, rest: Seq<u8>)
    ensures
        take_size(word_bytes(size as u64) + rest) == Ok::<(usize, Seq<u8>), DecodeError>(
            (size, rest),
        ),
{
    lemma_take_word(size as u64, rest);
}

proof fn lemma_take_pair(a: usize, b: usize, rest: Seq<u8>)
    ensures
        take_pair(word_bytes(a as u64) + word_bytes(b as u64) + rest) == Ok::<
            ((usize, usize), Seq<u8>),
            DecodeError,
        >(((a, b), rest)),
{
    reveal(take_pair);
    assert(word_bytes(a as u64) + word_bytes(b as u64) + rest =~= word_bytes(a as u64) + (
    word_bytes(b as u64) + rest));
    lemma_take_size(a, word_bytes(b as u64) + rest);
    lemma_take_size(b, rest);
}

proof fn lemma_take_bytes(bytes: Seq<u8>, rest: Seq<u8>)
    requires
        bytes.len() <= usize::MAX,
    ensures
        take_bytes(encoded_bytes(bytes) + rest) == Ok::<(Seq<u8>, Seq<u8>), DecodeError>(
            (bytes, rest),
        ),
{
    reveal(take_bytes);
    reveal(encoded_bytes);
    let behind = bytes + rest;
    lemma_regroup(word_bytes(bytes.len() as u64), bytes, rest);
    lemma_take_size(bytes.len() as usize, behind);
    assert(behind.take(bytes.len() as int) =~= bytes);
    assert(behind.skip(bytes.len() as int) =~= rest);
}

proof fn lemma_take_draw(draw: DrawRecord, rest: Seq<u8>)
    ensures
        take_draw(encoded_draw(draw) + rest) == Ok::<(DrawRecord, Seq<u8>), DecodeError>(
            (draw, rest),
        ),
{
    let tag = seq![draw_tag(draw.kind)];
    assert(encoded_draw(draw) + rest =~= word_bytes(draw.start as u64) + word_bytes(
        draw.len as u64,
    ) + (tag + rest));
    lemma_take_pair(draw.start, draw.len, tag + rest);
    assert((tag + rest).skip(1) =~= rest);
}

proof fn lemma_take_semantic(span: SemanticSpan, rest: Seq<u8>)
    ensures
        take_semantic(encoded_semantic(span) + rest) == Ok::<
            (SemanticSpan, Seq<u8>),
            DecodeError,
        >((span, rest)),
{
    let tag = seq![semantic_tag(span.kind)];
    assert(encoded_semantic(span) + rest =~= word_bytes(span.start as u64) + word_bytes(
        span.len as u64,
    ) + (tag + rest));
    lemma_take_pair(span.start, span.len, tag + rest);
    assert((tag + rest).skip(1) =~= rest);
}

/// A parser reads back what the code wrote, for every part that fits.
pub open spec fn reads_back<T>(
    parts: Seq<T>,
    code: spec_fn(T) -> Seq<u8>,
    parser: spec_fn(Seq<u8>) -> Taken<T>,
) -> bool {
    forall|i: int, rest: Seq<u8>|
        0 <= i < parts.len() ==> #[trigger] parser(code(parts[i]) + rest) == Ok::<
            (T, Seq<u8>),
            DecodeError,
        >((parts[i], rest))
}

proof fn lemma_take_parts<T>(
    parts: Seq<T>,
    done: Seq<T>,
    rest: Seq<u8>,
    code: spec_fn(T) -> Seq<u8>,
    parser: spec_fn(Seq<u8>) -> Taken<T>,
)
    requires
        reads_back(parts, code, parser),
    ensures
        take_parts(joined(parts, code) + rest, parts.len(), done, parser) == Ok::<
            (Seq<T>, Seq<u8>),
            DecodeError,
        >((done + parts, rest)),
    decreases parts.len(),
{
    if parts.len() == 0 {
        assert(joined(parts, code) + rest =~= rest);
        assert(done + parts =~= done);
    } else {
        let tail = parts.skip(1);
        let behind = joined(tail, code) + rest;
        assert(joined(parts, code) + rest =~= code(parts[0]) + behind);
        assert(parser(code(parts[0]) + behind) == Ok::<(T, Seq<u8>), DecodeError>(
            (parts[0], behind),
        ));
        assert(reads_back(tail, code, parser)) by {
            assert forall|i: int, more: Seq<u8>| 0 <= i < tail.len() implies #[trigger] parser(
                code(tail[i]) + more,
            ) == Ok::<(T, Seq<u8>), DecodeError>((tail[i], more)) by {
                assert(tail[i] == parts[i + 1]);
                assert(parser(code(parts[i + 1]) + more) == Ok::<(T, Seq<u8>), DecodeError>(
                    (parts[i + 1], more),
                ));
            }
        }
        lemma_take_parts(tail, done.push(parts[0]), rest, code, parser);
        assert(done.push(parts[0]) + tail =~= done + parts);
    }
}

proof fn lemma_take_list<T>(
    parts: Seq<T>,
    rest: Seq<u8>,
    code: spec_fn(T) -> Seq<u8>,
    parser: spec_fn(Seq<u8>) -> Taken<T>,
)
    requires
        parts.len() <= u64::MAX,
        reads_back(parts, code, parser),
    ensures
        take_list(encoded_list(parts, code) + rest, parser) == Ok::<
            (Seq<T>, Seq<u8>),
            DecodeError,
        >((parts, rest)),
{
    reveal(take_list);
    reveal(encoded_list);
    assert(encoded_list(parts, code) + rest =~= word_bytes(parts.len() as u64) + (joined(
        parts,
        code,
    ) + rest));
    lemma_take_word(parts.len() as u64, joined(parts, code) + rest);
    lemma_take_parts(parts, Seq::empty(), rest, code, parser);
    assert(Seq::<T>::empty() + parts =~= parts);
}

proof fn lemma_take_sequence(sequence: SequenceRecordModel, rest: Seq<u8>)
    requires
        sequence.items.len() <= u64::MAX,
    ensures
        take_sequence(encoded_sequence(sequence) + rest) == Ok::<
            (SequenceRecordModel, Seq<u8>),
            DecodeError,
        >((sequence, rest)),
{
    let items = encoded_list(sequence.items, item_code());
    assert(encoded_sequence(sequence) + rest =~= word_bytes(sequence.length_start as u64)
        + word_bytes(sequence.length_len as u64) + (items + rest));
    lemma_take_pair(sequence.length_start, sequence.length_len, items + rest);
    assert(reads_back(sequence.items, item_code(), item_parser())) by {
        assert forall|i: int, more: Seq<u8>| 0 <= i < sequence.items.len() implies #[trigger]
        item_parser()(item_code()(sequence.items[i]) + more) == Ok::<
            (ItemRecord, Seq<u8>),
            DecodeError,
        >((sequence.items[i], more)) by {
            lemma_take_pair(sequence.items[i].start, sequence.items[i].len, more);
        }
    }
    lemma_take_list(sequence.items, rest, item_code(), item_parser());
}

/// Lengths that an execution on this machine can have.
pub open spec fn fits_machine(execution: ExecutionModel) -> bool {
    &&& execution.trace.len() <= usize::MAX
    &&& execution.draws.len() <= usize::MAX
    &&& execution.semantics.len() <= usize::MAX
    &&& execution.sequences.len() <= usize::MAX
    &&& forall|i: int|
        0 <= i < execution.sequences.len() ==> (#[trigger] execution.sequences[i]).items.len()
            <= usize::MAX
    &&& execution.feedback matches Some(feedback) ==> {
        &&& exists|ids: Seq<CoverageId>|
            crate::coverage::strictly_ascending(ids) && #[trigger] ids.to_set()
                == feedback.features && ids.len() <= usize::MAX
        &&& feedback.dictionary.len() <= usize::MAX
        &&& forall|i: int|
            0 <= i < feedback.dictionary.len() ==> (#[trigger] feedback.dictionary[i]).len()
                <= usize::MAX
    }
}

proof fn lemma_regroup(a: Seq<u8>, b: Seq<u8>, c: Seq<u8>)
    ensures
        a + b + c == a + (b + c),
{
    assert(a + b + c =~= a + (b + c));
}

/// The identifiers of the features are read back.
proof fn lemma_take_ids(ids: Seq<CoverageId>, rest: Seq<u8>)
    requires
        ids.len() <= u64::MAX,
    ensures
        take_list(encoded_list(ids, id_code()) + rest, id_parser()) == Ok::<
            (Seq<CoverageId>, Seq<u8>),
            DecodeError,
        >((ids, rest)),
{
    assert(reads_back(ids, id_code(), id_parser())) by {
        assert forall|i: int, more: Seq<u8>| 0 <= i < ids.len() implies #[trigger] id_parser()(
            id_code()(ids[i]) + more,
        ) == Ok::<(CoverageId, Seq<u8>), DecodeError>((ids[i], more)) by {
            lemma_take_word(ids[i].0, more);
        }
    }
    lemma_take_list(ids, rest, id_code(), id_parser());
}

/// The values of the dictionary are read back.
proof fn lemma_take_values(values: Seq<Seq<u8>>, rest: Seq<u8>)
    requires
        values.len() <= u64::MAX,
        forall|i: int| 0 <= i < values.len() ==> (#[trigger] values[i]).len() <= usize::MAX,
    ensures
        take_list(encoded_list(values, value_code()) + rest, value_parser()) == Ok::<
            (Seq<Seq<u8>>, Seq<u8>),
            DecodeError,
        >((values, rest)),
{
    assert(reads_back(values, value_code(), value_parser())) by {
        assert forall|i: int, more: Seq<u8>| 0 <= i < values.len() implies #[trigger]
        value_parser()(value_code()(values[i]) + more) == Ok::<
            (Seq<u8>, Seq<u8>),
            DecodeError,
        >((values[i], more)) by {
            lemma_take_bytes(values[i], more);
        }
    }
    lemma_take_list(values, rest, value_code(), value_parser());
}

proof fn lemma_take_draws(draws: Seq<DrawRecord>, rest: Seq<u8>)
    requires
        draws.len() <= u64::MAX,
    ensures
        take_list(encoded_list(draws, draw_code()) + rest, draw_parser()) == Ok::<
            (Seq<DrawRecord>, Seq<u8>),
            DecodeError,
        >((draws, rest)),
{
    assert(reads_back(draws, draw_code(), draw_parser())) by {
        assert forall|i: int, more: Seq<u8>| 0 <= i < draws.len() implies #[trigger] draw_parser()(
            draw_code()(draws[i]) + more,
        ) == Ok::<(DrawRecord, Seq<u8>), DecodeError>((draws[i], more)) by {
            lemma_take_draw(draws[i], more);
        }
    }
    lemma_take_list(draws, rest, draw_code(), draw_parser());
}

proof fn lemma_take_semantics(spans: Seq<SemanticSpan>, rest: Seq<u8>)
    requires
        spans.len() <= u64::MAX,
    ensures
        take_list(encoded_list(spans, semantic_code()) + rest, semantic_parser()) == Ok::<
            (Seq<SemanticSpan>, Seq<u8>),
            DecodeError,
        >((spans, rest)),
{
    assert(reads_back(spans, semantic_code(), semantic_parser())) by {
        assert forall|i: int, more: Seq<u8>| 0 <= i < spans.len() implies #[trigger]
        semantic_parser()(semantic_code()(spans[i]) + more) == Ok::<
            (SemanticSpan, Seq<u8>),
            DecodeError,
        >((spans[i], more)) by {
            lemma_take_semantic(spans[i], more);
        }
    }
    lemma_take_list(spans, rest, semantic_code(), semantic_parser());
}

proof fn lemma_take_sequences(sequences: Seq<SequenceRecordModel>, rest: Seq<u8>)
    requires
        sequences.len() <= u64::MAX,
        forall|i: int|
            0 <= i < sequences.len() ==> (#[trigger] sequences[i]).items.len() <= u64::MAX,
    ensures
        take_list(encoded_list(sequences, sequence_code()) + rest, sequence_parser()) == Ok::<
            (Seq<SequenceRecordModel>, Seq<u8>),
            DecodeError,
        >((sequences, rest)),
{
    assert(reads_back(sequences, sequence_code(), sequence_parser())) by {
        assert forall|i: int, more: Seq<u8>| 0 <= i < sequences.len() implies #[trigger]
        sequence_parser()(sequence_code()(sequences[i]) + more) == Ok::<
            (SequenceRecordModel, Seq<u8>),
            DecodeError,
        >((sequences[i], more)) by {
            lemma_take_sequence(sequences[i], more);
        }
    }
    lemma_take_list(sequences, rest, sequence_code(), sequence_parser());
}

proof fn lemma_take_feedback(feedback: FeedbackModel, ids: Seq<CoverageId>)
    requires
        crate::coverage::strictly_ascending(ids),
        ids.to_set() == feedback.features,
        ids.len() <= usize::MAX,
        feedback.dictionary.len() <= usize::MAX,
        forall|i: int|
            0 <= i < feedback.dictionary.len() ==> (#[trigger] feedback.dictionary[i]).len()
                <= usize::MAX,
    ensures
        take_feedback(encoded_feedback(Some(feedback))) == Ok::<
            (Option<FeedbackModel>, Seq<u8>),
            DecodeError,
        >((Some(feedback), Seq::empty())),
{
    reveal(take_feedback);
    reveal(encoded_feedback);
    ascending_ids_are_unique(ids, feedback.features);
    let features = encoded_list(ids, id_code());
    let weight = word_bytes(feedback.hit_count_weight);
    let values = encoded_list(feedback.dictionary, value_code());
    let rest = features + (weight + values);
    lemma_regroup(seq![1u8] + features, weight, values);
    lemma_regroup(seq![1u8], features, weight + values);
    assert(encoded_feedback(Some(feedback)) == seq![1u8] + rest);
    assert((seq![1u8] + rest).skip(1) =~= rest);
    lemma_take_ids(ids, weight + values);
    lemma_take_word(feedback.hit_count_weight, values);
    lemma_take_values(feedback.dictionary, Seq::empty());
    assert(values + Seq::<u8>::empty() =~= values);
}

/// What stands behind the spans in the code of an execution.
spec fn encoded_rest(execution: ExecutionModel) -> Seq<u8> {
    word_bytes(execution.bytes_consumed as u64) + word_bytes(execution.case_cost.0 as u64)
        + encoded_feedback(execution.feedback)
}

proof fn lemma_join_seven(
    a: Seq<u8>,
    b: Seq<u8>,
    c: Seq<u8>,
    d: Seq<u8>,
    e: Seq<u8>,
    f: Seq<u8>,
    g: Seq<u8>,
)
    ensures
        a + b + c + d + e + f + g == a + (b + (c + (d + (e + f + g)))),
{
    lemma_regroup(a + b + c + d + e, f, g);
    lemma_regroup(a + b + c + d, e, f + g);
    lemma_regroup(e, f, g);
    lemma_regroup(a + b + c, d, e + f + g);
    lemma_regroup(a + b, c, d + (e + f + g));
    lemma_regroup(a, b, c + (d + (e + f + g)));
}

proof fn lemma_take_spans(execution: ExecutionModel)
    requires
        fits_machine(execution),
    ensures
        take_spans(encoded(execution)) == Ok::<
            ((Seq<u8>, Seq<DrawRecord>, Seq<SemanticSpan>, Seq<SequenceRecordModel>), Seq<u8>),
            DecodeError,
        >(
            (
                (execution.trace, execution.draws, execution.semantics, execution.sequences),
                encoded_rest(execution),
            ),
        ),
{
    let trace = encoded_bytes(execution.trace);
    let draws = encoded_list(execution.draws, draw_code());
    let semantics = encoded_list(execution.semantics, semantic_code());
    let sequences = encoded_list(execution.sequences, sequence_code());
    let rest = encoded_rest(execution);
    lemma_join_seven(
        trace,
        draws,
        semantics,
        sequences,
        word_bytes(execution.bytes_consumed as u64),
        word_bytes(execution.case_cost.0 as u64),
        encoded_feedback(execution.feedback),
    );
    lemma_take_bytes(execution.trace, draws + (semantics + (sequences + rest)));
    lemma_take_draws(execution.draws, semantics + (sequences + rest));
    lemma_take_semantics(execution.semantics, sequences + rest);
    lemma_take_sequences(execution.sequences, rest);
}

/// An execution that is encoded is read back as it was.
pub proof fn executions_round_trip(execution: ExecutionModel)
    requires
        fits_machine(execution),
    ensures
        decoded(encoded(execution)) == Ok::<ExecutionModel, DecodeError>(execution),
{
    let feedback = encoded_feedback(execution.feedback);
    lemma_take_spans(execution);
    lemma_take_pair(execution.bytes_consumed, execution.case_cost.0, feedback);
    match execution.feedback {
        Some(model) => {
            let ids = choose|ids: Seq<CoverageId>|
                crate::coverage::strictly_ascending(ids) && #[trigger] ids.to_set()
                    == model.features && ids.len() <= usize::MAX;
            lemma_take_feedback(model, ids);
        },
        None => {
            reveal(take_feedback);
            reveal(encoded_feedback);
            assert(feedback.skip(1) =~= Seq::<u8>::empty());
        },
    }
}

/// What a reader says of bytes it says of longer ones too, unless it ran out of bytes: it reads the
/// same and leaves what was added, or refuses the bytes for the same reason.
spec fn holds_on<T>(short: Taken<T>, long: Taken<T>, more: Seq<u8>) -> bool {
    match short {
        Ok((part, rest)) => long == Ok::<(T, Seq<u8>), DecodeError>((part, rest + more)),
        Err(error) => error == DecodeError::Truncated || long == Err::<(T, Seq<u8>), DecodeError>(
            error,
        ),
    }
}

proof fn lemma_word_holds_on(bytes: Seq<u8>, more: Seq<u8>)
    ensures
        holds_on(take_word(bytes), take_word(bytes + more), more),
        holds_on(take_size(bytes), take_size(bytes + more), more),
{
    if bytes.len() >= 8 {
        assert((bytes + more).skip(8) =~= bytes.skip(8) + more);
        assert(word_at(bytes + more, 0) == word_at(bytes, 0));
    }
}

proof fn lemma_byte_holds_on(bytes: Seq<u8>, more: Seq<u8>)
    ensures
        holds_on(take_byte(bytes), take_byte(bytes + more), more),
{
    if bytes.len() >= 1 {
        assert((bytes + more).skip(1) =~= bytes.skip(1) + more);
    }
}

proof fn lemma_bytes_hold_on(bytes: Seq<u8>, more: Seq<u8>)
    ensures
        holds_on(take_bytes(bytes), take_bytes(bytes + more), more),
{
    reveal(take_bytes);
    lemma_word_holds_on(bytes, more);
    if let Ok((len, rest)) = take_size(bytes) {
        if len <= rest.len() {
            assert((rest + more).take(len as int) =~= rest.take(len as int));
            assert((rest + more).skip(len as int) =~= rest.skip(len as int) + more);
        }
    }
}

proof fn lemma_pair_holds_on(bytes: Seq<u8>, more: Seq<u8>)
    ensures
        holds_on(take_pair(bytes), take_pair(bytes + more), more),
{
    reveal(take_pair);
    lemma_word_holds_on(bytes, more);
    if let Ok((_, rest)) = take_size(bytes) {
        lemma_word_holds_on(rest, more);
    }
}

proof fn lemma_records_hold_on(bytes: Seq<u8>, more: Seq<u8>)
    ensures
        holds_on(take_draw(bytes), take_draw(bytes + more), more),
        holds_on(take_semantic(bytes), take_semantic(bytes + more), more),
        holds_on(take_item(bytes), take_item(bytes + more), more),
        holds_on(take_id(bytes), take_id(bytes + more), more),
{
    lemma_word_holds_on(bytes, more);
    lemma_pair_holds_on(bytes, more);
    if let Ok((_, rest)) = take_pair(bytes) {
        lemma_byte_holds_on(rest, more);
    }
}

/// A reader of parts never changes its mind on longer bytes.
spec fn is_steady<T>(parser: spec_fn(Seq<u8>) -> Taken<T>) -> bool {
    forall|bytes: Seq<u8>, more: Seq<u8>|
        holds_on(parser(bytes), #[trigger] parser(bytes + more), more)
}

proof fn lemma_parts_hold_on<T>(
    bytes: Seq<u8>,
    more: Seq<u8>,
    n: nat,
    parts: Seq<T>,
    parser: spec_fn(Seq<u8>) -> Taken<T>,
)
    requires
        is_steady(parser),
    ensures
        holds_on(
            take_parts(bytes, n, parts, parser),
            take_parts(bytes + more, n, parts, parser),
            more,
        ),
    decreases n,
{
    if n > 0 {
        assert(holds_on(parser(bytes), parser(bytes + more), more));
        if let Ok((part, rest)) = parser(bytes) {
            lemma_parts_hold_on(rest, more, (n - 1) as nat, parts.push(part), parser);
        }
    }
}

proof fn lemma_list_holds_on<T>(
    bytes: Seq<u8>,
    more: Seq<u8>,
    parser: spec_fn(Seq<u8>) -> Taken<T>,
)
    requires
        is_steady(parser),
    ensures
        holds_on(take_list(bytes, parser), take_list(bytes + more, parser), more),
{
    reveal(take_list);
    lemma_word_holds_on(bytes, more);
    if let Ok((count, rest)) = take_word(bytes) {
        lemma_parts_hold_on(rest, more, count as nat, Seq::empty(), parser);
    }
}

proof fn lemma_readers_are_steady()
    ensures
        is_steady(draw_parser()),
        is_steady(semantic_parser()),
        is_steady(item_parser()),
        is_steady(id_parser()),
        is_steady(value_parser()),
{
    assert forall|bytes: Seq<u8>, more: Seq<u8>|
        holds_on(draw_parser()(bytes), #[trigger] draw_parser()(bytes + more), more) by {
        lemma_records_hold_on(bytes, more);
    }
    assert forall|bytes: Seq<u8>, more: Seq<u8>|
        holds_on(semantic_parser()(bytes), #[trigger] semantic_parser()(bytes + more), more) by {
        lemma_records_hold_on(bytes, more);
    }
    assert forall|bytes: Seq<u8>, more: Seq<u8>|
        holds_on(item_parser()(bytes), #[trigger] item_parser()(bytes + more), more) by {
        lemma_records_hold_on(bytes, more);
    }
    assert forall|bytes: Seq<u8>, more: Seq<u8>|
        holds_on(id_parser()(bytes), #[trigger] id_parser()(bytes + more), more) by {
        lemma_records_hold_on(bytes, more);
    }
    assert forall|bytes: Seq<u8>, more: Seq<u8>|
        holds_on(value_parser()(bytes), #[trigger] value_parser()(bytes + more), more) by {
        lemma_bytes_hold_on(bytes, more);
    }
}

proof fn lemma_sequences_are_steady()
    ensures
        is_steady(sequence_parser()),
{
    lemma_readers_are_steady();
    assert forall|bytes: Seq<u8>, more: Seq<u8>|
        holds_on(sequence_parser()(bytes), #[trigger] sequence_parser()(bytes + more), more) by {
        lemma_pair_holds_on(bytes, more);
        if let Ok((_, rest)) = take_pair(bytes) {
            lemma_list_holds_on(rest, more, item_parser());
        }
    }
}

proof fn lemma_feedback_holds_on(bytes: Seq<u8>, more: Seq<u8>)
    ensures
        holds_on(take_feedback(bytes), take_feedback(bytes + more), more),
{
    reveal(take_feedback);
    lemma_readers_are_steady();
    lemma_byte_holds_on(bytes, more);
    if let Ok((tag, rest)) = take_byte(bytes) {
        lemma_list_holds_on(rest, more, id_parser());
        if let Ok((_, rest)) = take_list(rest, id_parser()) {
            lemma_word_holds_on(rest, more);
            if let Ok((_, rest)) = take_word(rest) {
                lemma_list_holds_on(rest, more, value_parser());
            }
        }
    }
}

proof fn lemma_spans_hold_on(bytes: Seq<u8>, more: Seq<u8>)
    ensures
        holds_on(take_spans(bytes), take_spans(bytes + more), more),
{
    lemma_readers_are_steady();
    lemma_sequences_are_steady();
    lemma_bytes_hold_on(bytes, more);
    if let Ok((_, rest)) = take_bytes(bytes) {
        lemma_list_holds_on(rest, more, draw_parser());
        if let Ok((_, rest)) = take_list(rest, draw_parser()) {
            lemma_list_holds_on(rest, more, semantic_parser());
            if let Ok((_, rest)) = take_list(rest, semantic_parser()) {
                lemma_list_holds_on(rest, more, sequence_parser());
            }
        }
    }
}

proof fn lemma_execution_holds_on(bytes: Seq<u8>, more: Seq<u8>)
    ensures
        holds_on(take_execution(bytes), take_execution(bytes + more), more),
{
    lemma_spans_hold_on(bytes, more);
    if let Ok((_, rest)) = take_spans(bytes) {
        lemma_pair_holds_on(rest, more);
        if let Ok((_, rest)) = take_pair(rest) {
            lemma_feedback_holds_on(rest, more);
        }
    }
}

/// An encoded execution that was cut off anywhere is refused as truncated.
pub proof fn cut_executions_are_truncated(execution: ExecutionModel, n: int)
    requires
        fits_machine(execution),
        0 <= n < encoded(execution).len(),
    ensures
        decoded(encoded(execution).take(n)) == Err::<ExecutionModel, DecodeError>(
            DecodeError::Truncated,
        ),
{
    let whole = encoded(execution);
    assert(whole.take(n) + whole.skip(n) =~= whole);
    executions_round_trip(execution);
    lemma_execution_holds_on(whole.take(n), whole.skip(n));
}

/// An encoded execution with anything behind it is refused for its trailing bytes.
pub proof fn longer_executions_are_refused(execution: ExecutionModel, more: Seq<u8>)
    requires
        fits_machine(execution),
        more.len() > 0,
    ensures
        decoded(encoded(execution) + more) == Err::<ExecutionModel, DecodeError>(
            DecodeError::Trailing,
        ),
{
    executions_round_trip(execution);
    lemma_execution_holds_on(encoded(execution), more);
}

/// No two executions are encoded alike.
pub proof fn encodings_tell_executions_apart(a: ExecutionModel, b: ExecutionModel)
    requires
        fits_machine(a),
        fits_machine(b),
        encoded(a) == encoded(b),
    ensures
        a == b,
{
    executions_round_trip(a);
    executions_round_trip(b);
}

/// The bytes of an execution, and how many of them were read.
struct Reader<'a> {
    bytes: &'a Vec<u8>,
    pos: usize,
}

impl<'a> Reader<'a> {
    spec fn rest(self) -> Seq<u8> {
        self.bytes@.skip(self.pos as int)
    }

    spec fn wf(self) -> bool {
        self.pos <= self.bytes@.len()
    }

    fn u8(&mut self) -> (byte: Result<u8, DecodeError>)
        requires
            old(self).wf(),
        ensures
            final(self).bytes == old(self).bytes,
            final(self).wf(),
            match byte {
                Ok(byte) => take_byte(old(self).rest()) == Ok::<(u8, Seq<u8>), DecodeError>(
                    (byte, final(self).rest()),
                ),
                Err(error) => take_byte(old(self).rest()) == Err::<(u8, Seq<u8>), DecodeError>(
                    error,
                ),
            },
    {
        if self.pos >= self.bytes.len() {
            return Err(DecodeError::Truncated);
        }
        let ghost before = self.rest();
        let byte: u8 = self.bytes[self.pos];
        self.pos = self.pos + 1;
        assert(self.rest() =~= before.skip(1));
        Ok(byte)
    }

    fn u64(&mut self) -> (word: Result<u64, DecodeError>)
        requires
            old(self).wf(),
        ensures
            final(self).bytes == old(self).bytes,
            final(self).wf(),
            match word {
                Ok(word) => take_word(old(self).rest()) == Ok::<(u64, Seq<u8>), DecodeError>(
                    (word, final(self).rest()),
                ),
                Err(error) => take_word(old(self).rest()) == Err::<(u64, Seq<u8>), DecodeError>(
                    error,
                ),
            },
    {
        let total: usize = self.bytes.len();
        if total - self.pos < 8 {
            return Err(DecodeError::Truncated);
        }
        let ghost before = self.rest();
        let word: u64 = read_word(self.bytes, self.pos);
        proof {
            let at = self.pos as int;
            assert forall|k: int| 0 <= k < 8 implies #[trigger] before[k] == self.bytes@[at + k] by {}
            assert(before[0] == self.bytes@[at]);
            assert(before[1] == self.bytes@[at + 1]);
            assert(before[2] == self.bytes@[at + 2]);
            assert(before[3] == self.bytes@[at + 3]);
            assert(before[4] == self.bytes@[at + 4]);
            assert(before[5] == self.bytes@[at + 5]);
            assert(before[6] == self.bytes@[at + 6]);
            assert(before[7] == self.bytes@[at + 7]);
        }
        self.pos = self.pos + 8;
        assert(self.rest() =~= before.skip(8));
        Ok(word)
    }

    fn usize(&mut self) -> (size: Result<usize, DecodeError>)
        requires
            old(self).wf(),
        ensures
            final(self).bytes == old(self).bytes,
            final(self).wf(),
            match size {
                Ok(size) => take_size(old(self).rest()) == Ok::<(usize, Seq<u8>), DecodeError>(
                    (size, final(self).rest()),
                ),
                Err(error) => take_size(old(self).rest()) == Err::<(usize, Seq<u8>), DecodeError>(
                    error,
                ),
            },
    {
        let word: u64 = match self.u64() {
            Ok(word) => word,
            Err(error) => {
                return Err(error);
            },
        };
        if word > usize::MAX as u64 {
            return Err(DecodeError::Overflow);
        }
        Ok(word as usize)
    }

    fn bytes(&mut self) -> (bytes: Result<Vec<u8>, DecodeError>)
        requires
            old(self).wf(),
        ensures
            final(self).bytes == old(self).bytes,
            final(self).wf(),
            match bytes {
                Ok(bytes) => take_bytes(old(self).rest()) == Ok::<(Seq<u8>, Seq<u8>), DecodeError>(
                    (bytes@, final(self).rest()),
                ),
                Err(error) => take_bytes(old(self).rest()) == Err::<
                    (Seq<u8>, Seq<u8>),
                    DecodeError,
                >(error),
            },
    {
        proof {
            reveal(take_bytes);
        }
        let len: usize = match self.usize() {
            Ok(len) => len,
            Err(error) => {
                return Err(error);
            },
        };
        let total: usize = self.bytes.len();
        if len > total - self.pos {
            return Err(DecodeError::Truncated);
        }
        let ghost before = self.rest();
        let mut bytes: Vec<u8> = Vec::with_capacity(len);
        bytes.extend_from_slice(
            slice_subrange(self.bytes.as_slice(), self.pos, self.pos + len),
        );
        self.pos = self.pos + len;
        assert(bytes@ =~= before.take(len as int));
        assert(self.rest() =~= before.skip(len as int));
        Ok(bytes)
    }

    fn pair(&mut self) -> (pair: Result<(usize, usize), DecodeError>)
        requires
            old(self).wf(),
        ensures
            final(self).bytes == old(self).bytes,
            final(self).wf(),
            match pair {
                Ok(pair) => take_pair(old(self).rest()) == Ok::<
                    ((usize, usize), Seq<u8>),
                    DecodeError,
                >((pair, final(self).rest())),
                Err(error) => take_pair(old(self).rest()) == Err::<
                    ((usize, usize), Seq<u8>),
                    DecodeError,
                >(error),
            },
    {
        proof {
            reveal(take_pair);
        }
        match self.usize() {
            Ok(start) => match self.usize() {
                Ok(len) => Ok((start, len)),
                Err(error) => Err(error),
            },
            Err(error) => Err(error),
        }
    }

    fn draw(&mut self) -> (draw: Result<DrawRecord, DecodeError>)
        requires
            old(self).wf(),
        ensures
            final(self).bytes == old(self).bytes,
            final(self).wf(),
            match draw {
                Ok(draw) => take_draw(old(self).rest()) == Ok::<(DrawRecord, Seq<u8>), DecodeError>(
                    (draw, final(self).rest()),
                ),
                Err(error) => take_draw(old(self).rest()) == Err::<
                    (DrawRecord, Seq<u8>),
                    DecodeError,
                >(error),
            },
    {
        let (start, len) = match self.pair() {
            Ok(pair) => pair,
            Err(error) => {
                return Err(error);
            },
        };
        match self.u8() {
            Ok(0) => Ok(DrawRecord { start, len, kind: DrawKind::Word }),
            Ok(1) => Ok(DrawRecord { start, len, kind: DrawKind::Bytes }),
            Ok(tag) => Err(DecodeError::BadDrawKind(tag)),
            Err(error) => Err(error),
        }
    }

    fn semantic(&mut self) -> (span: Result<SemanticSpan, DecodeError>)
        requires
            old(self).wf(),
        ensures
            final(self).bytes == old(self).bytes,
            final(self).wf(),
            match span {
                Ok(span) => take_semantic(old(self).rest()) == Ok::<
                    (SemanticSpan, Seq<u8>),
                    DecodeError,
                >((span, final(self).rest())),
                Err(error) => take_semantic(old(self).rest()) == Err::<
                    (SemanticSpan, Seq<u8>),
                    DecodeError,
                >(error),
            },
    {
        let (start, len) = match self.pair() {
            Ok(pair) => pair,
            Err(error) => {
                return Err(error);
            },
        };
        match self.u8() {
            Ok(0) => Ok(SemanticSpan { start, len, kind: SemanticKind::Length }),
            Ok(1) => Ok(SemanticSpan { start, len, kind: SemanticKind::Item }),
            Ok(2) => Ok(SemanticSpan { start, len, kind: SemanticKind::Variant }),
            Ok(tag) => Err(DecodeError::BadSemanticKind(tag)),
            Err(error) => Err(error),
        }
    }

    fn item(&mut self) -> (item: Result<ItemRecord, DecodeError>)
        requires
            old(self).wf(),
        ensures
            final(self).bytes == old(self).bytes,
            final(self).wf(),
            match item {
                Ok(item) => take_item(old(self).rest()) == Ok::<(ItemRecord, Seq<u8>), DecodeError>(
                    (item, final(self).rest()),
                ),
                Err(error) => take_item(old(self).rest()) == Err::<
                    (ItemRecord, Seq<u8>),
                    DecodeError,
                >(error),
            },
    {
        match self.pair() {
            Ok((start, len)) => Ok(ItemRecord { start, len }),
            Err(error) => Err(error),
        }
    }

    fn id(&mut self) -> (id: Result<CoverageId, DecodeError>)
        requires
            old(self).wf(),
        ensures
            final(self).bytes == old(self).bytes,
            final(self).wf(),
            match id {
                Ok(id) => take_id(old(self).rest()) == Ok::<(CoverageId, Seq<u8>), DecodeError>(
                    (id, final(self).rest()),
                ),
                Err(error) => take_id(old(self).rest()) == Err::<
                    (CoverageId, Seq<u8>),
                    DecodeError,
                >(error),
            },
    {
        match self.u64() {
            Ok(word) => Ok(CoverageId::new(word)),
            Err(error) => Err(error),
        }
    }

    fn draws(&mut self) -> (list: Result<Vec<DrawRecord>, DecodeError>)
        requires
            old(self).wf(),
        ensures
            final(self).bytes == old(self).bytes,
            final(self).wf(),
            match list {
                Ok(list) => take_list(old(self).rest(), draw_parser()) == Ok::<
                    (Seq<DrawRecord>, Seq<u8>),
                    DecodeError,
                >((list@, final(self).rest())),
                Err(error) => take_list(old(self).rest(), draw_parser()) == Err::<
                    (Seq<DrawRecord>, Seq<u8>),
                    DecodeError,
                >(error),
            },
    {
        proof {
            reveal(take_list);
        }
        let ghost first = self.rest();
        let count: u64 = match self.u64() {
            Ok(count) => count,
            Err(error) => {
                return Err(error);
            },
        };
        let mut list: Vec<DrawRecord> = Vec::new();
        let mut left: u64 = count;
        assert(list@ =~= Seq::<DrawRecord>::empty());
        while left > 0
            invariant
                self.wf(),
                self.bytes == old(self).bytes,
                first == old(self).rest(),
                take_list(first, draw_parser()) == take_parts(
                    self.rest(),
                    left as nat,
                    list@,
                    draw_parser(),
                ),
            decreases left,
        {
            let ghost sofar = list@;
            match self.draw() {
                Ok(part) => {
                    list.push(part);
                    assert(list@ =~= sofar.push(part));
                },
                Err(error) => {
                    return Err(error);
                },
            }
            left -= 1;
        }
        Ok(list)
    }

    fn semantics(&mut self) -> (list: Result<Vec<SemanticSpan>, DecodeError>)
        requires
            old(self).wf(),
        ensures
            final(self).bytes == old(self).bytes,
            final(self).wf(),
            match list {
                Ok(list) => take_list(old(self).rest(), semantic_parser()) == Ok::<
                    (Seq<SemanticSpan>, Seq<u8>),
                    DecodeError,
                >((list@, final(self).rest())),
                Err(error) => take_list(old(self).rest(), semantic_parser()) == Err::<
                    (Seq<SemanticSpan>, Seq<u8>),
                    DecodeError,
                >(error),
            },
    {
        proof {
            reveal(take_list);
        }
        let ghost first = self.rest();
        let count: u64 = match self.u64() {
            Ok(count) => count,
            Err(error) => {
                return Err(error);
            },
        };
        let mut list: Vec<SemanticSpan> = Vec::new();
        let mut left: u64 = count;
        assert(list@ =~= Seq::<SemanticSpan>::empty());
        while left > 0
            invariant
                self.wf(),
                self.bytes == old(self).bytes,
                first == old(self).rest(),
                take_list(first, semantic_parser()) == take_parts(
                    self.rest(),
                    left as nat,
                    list@,
                    semantic_parser(),
                ),
            decreases left,
        {
            let ghost sofar = list@;
            match self.semantic() {
                Ok(part) => {
                    list.push(part);
                    assert(list@ =~= sofar.push(part));
                },
                Err(error) => {
                    return Err(error);
                },
            }
            left -= 1;
        }
        Ok(list)
    }

    fn items(&mut self) -> (list: Result<Vec<ItemRecord>, DecodeError>)
        requires
            old(self).wf(),
        ensures
            final(self).bytes == old(self).bytes,
            final(self).wf(),
            match list {
                Ok(list) => take_list(old(self).rest(), item_parser()) == Ok::<
                    (Seq<ItemRecord>, Seq<u8>),
                    DecodeError,
                >((list@, final(self).rest())),
                Err(error) => take_list(old(self).rest(), item_parser()) == Err::<
                    (Seq<ItemRecord>, Seq<u8>),
                    DecodeError,
                >(error),
            },
    {
        proof {
            reveal(take_list);
        }
        let ghost first = self.rest();
        let count: u64 = match self.u64() {
            Ok(count) => count,
            Err(error) => {
                return Err(error);
            },
        };
        let mut list: Vec<ItemRecord> = Vec::new();
        let mut left: u64 = count;
        assert(list@ =~= Seq::<ItemRecord>::empty());
        while left > 0
            invariant
                self.wf(),
                self.bytes == old(self).bytes,
                first == old(self).rest(),
                take_list(first, item_parser()) == take_parts(
                    self.rest(),
                    left as nat,
                    list@,
                    item_parser(),
                ),
            decreases left,
        {
            let ghost sofar = list@;
            match self.item() {
                Ok(part) => {
                    list.push(part);
                    assert(list@ =~= sofar.push(part));
                },
                Err(error) => {
                    return Err(error);
                },
            }
            left -= 1;
        }
        Ok(list)
    }

    fn ids(&mut self) -> (list: Result<Vec<CoverageId>, DecodeError>)
        requires
            old(self).wf(),
        ensures
            final(self).bytes == old(self).bytes,
            final(self).wf(),
            match list {
                Ok(list) => take_list(old(self).rest(), id_parser()) == Ok::<
                    (Seq<CoverageId>, Seq<u8>),
                    DecodeError,
                >((list@, final(self).rest())),
                Err(error) => take_list(old(self).rest(), id_parser()) == Err::<
                    (Seq<CoverageId>, Seq<u8>),
                    DecodeError,
                >(error),
            },
    {
        proof {
            reveal(take_list);
        }
        let ghost first = self.rest();
        let count: u64 = match self.u64() {
            Ok(count) => count,
            Err(error) => {
                return Err(error);
            },
        };
        let mut list: Vec<CoverageId> = Vec::new();
        let mut left: u64 = count;
        assert(list@ =~= Seq::<CoverageId>::empty());
        while left > 0
            invariant
                self.wf(),
                self.bytes == old(self).bytes,
                first == old(self).rest(),
                take_list(first, id_parser()) == take_parts(
                    self.rest(),
                    left as nat,
                    list@,
                    id_parser(),
                ),
            decreases left,
        {
            let ghost sofar = list@;
            match self.id() {
                Ok(part) => {
                    list.push(part);
                    assert(list@ =~= sofar.push(part));
                },
                Err(error) => {
                    return Err(error);
                },
            }
            left -= 1;
        }
        Ok(list)
    }

    fn sequence(&mut self) -> (sequence: Result<SequenceRecord, DecodeError>)
        requires
            old(self).wf(),
        ensures
            final(self).bytes == old(self).bytes,
            final(self).wf(),
            match sequence {
                Ok(sequence) => take_sequence(old(self).rest()) == Ok::<
                    (SequenceRecordModel, Seq<u8>),
                    DecodeError,
                >((sequence@, final(self).rest())),
                Err(error) => take_sequence(old(self).rest()) == Err::<
                    (SequenceRecordModel, Seq<u8>),
                    DecodeError,
                >(error),
            },
    {
        let (length_start, length_len) = match self.pair() {
            Ok(pair) => pair,
            Err(error) => {
                return Err(error);
            },
        };
        match self.items() {
            Ok(items) => Ok(SequenceRecord { length_start, length_len, items }),
            Err(error) => Err(error),
        }
    }

    fn sequences(&mut self) -> (list: Result<Vec<SequenceRecord>, DecodeError>)
        requires
            old(self).wf(),
        ensures
            final(self).bytes == old(self).bytes,
            final(self).wf(),
            match list {
                Ok(list) => take_list(old(self).rest(), sequence_parser()) == Ok::<
                    (Seq<SequenceRecordModel>, Seq<u8>),
                    DecodeError,
                >((record_models(list@), final(self).rest())),
                Err(error) => take_list(old(self).rest(), sequence_parser()) == Err::<
                    (Seq<SequenceRecordModel>, Seq<u8>),
                    DecodeError,
                >(error),
            },
    {
        proof {
            reveal(take_list);
        }
        let ghost first = self.rest();
        let count: u64 = match self.u64() {
            Ok(count) => count,
            Err(error) => {
                return Err(error);
            },
        };
        let mut list: Vec<SequenceRecord> = Vec::new();
        let mut left: u64 = count;
        assert(record_models(list@) =~= Seq::<SequenceRecordModel>::empty());
        while left > 0
            invariant
                self.wf(),
                self.bytes == old(self).bytes,
                first == old(self).rest(),
                take_list(first, sequence_parser()) == take_parts(
                    self.rest(),
                    left as nat,
                    record_models(list@),
                    sequence_parser(),
                ),
            decreases left,
        {
            let ghost sofar = record_models(list@);
            match self.sequence() {
                Ok(part) => {
                    list.push(part);
                    assert(record_models(list@) =~= sofar.push(part@));
                },
                Err(error) => {
                    return Err(error);
                },
            }
            left -= 1;
        }
        Ok(list)
    }

    fn values(&mut self) -> (list: Result<Vec<Vec<u8>>, DecodeError>)
        requires
            old(self).wf(),
        ensures
            final(self).bytes == old(self).bytes,
            final(self).wf(),
            match list {
                Ok(list) => take_list(old(self).rest(), value_parser()) == Ok::<
                    (Seq<Seq<u8>>, Seq<u8>),
                    DecodeError,
                >((crate::mutation::byte_lists(list@), final(self).rest())),
                Err(error) => take_list(old(self).rest(), value_parser()) == Err::<
                    (Seq<Seq<u8>>, Seq<u8>),
                    DecodeError,
                >(error),
            },
    {
        proof {
            reveal(take_list);
        }
        let ghost first = self.rest();
        let count: u64 = match self.u64() {
            Ok(count) => count,
            Err(error) => {
                return Err(error);
            },
        };
        let mut list: Vec<Vec<u8>> = Vec::new();
        let mut left: u64 = count;
        assert(crate::mutation::byte_lists(list@) =~= Seq::<Seq<u8>>::empty());
        while left > 0
            invariant
                self.wf(),
                self.bytes == old(self).bytes,
                first == old(self).rest(),
                take_list(first, value_parser()) == take_parts(
                    self.rest(),
                    left as nat,
                    crate::mutation::byte_lists(list@),
                    value_parser(),
                ),
            decreases left,
        {
            let ghost sofar = crate::mutation::byte_lists(list@);
            match self.bytes() {
                Ok(part) => {
                    list.push(part);
                    assert(crate::mutation::byte_lists(list@) =~= sofar.push(part@));
                },
                Err(error) => {
                    return Err(error);
                },
            }
            left -= 1;
        }
        Ok(list)
    }

    fn feedback(&mut self) -> (feedback: Result<Option<ExecutionFeedback>, DecodeError>)
        requires
            old(self).wf(),
        ensures
            final(self).bytes == old(self).bytes,
            final(self).wf(),
            match feedback {
                Ok(feedback) => take_feedback(old(self).rest()) == Ok::<
                    (Option<FeedbackModel>, Seq<u8>),
                    DecodeError,
                >((feedback_model(feedback), final(self).rest())),
                Err(error) => take_feedback(old(self).rest()) == Err::<
                    (Option<FeedbackModel>, Seq<u8>),
                    DecodeError,
                >(error),
            },
    {
        proof {
            reveal(take_feedback);
        }
        match self.u8() {
            Ok(0) => Ok(None),
            Ok(1) => {
                let ids = match self.ids() {
                    Ok(ids) => ids,
                    Err(error) => {
                        return Err(error);
                    },
                };
                let hit_count_weight: u64 = match self.u64() {
                    Ok(word) => word,
                    Err(error) => {
                        return Err(error);
                    },
                };
                let dictionary = match self.values() {
                    Ok(values) => values,
                    Err(error) => {
                        return Err(error);
                    },
                };
                let features = CoverageSet::from_unsorted(ids);
                Ok(Some(ExecutionFeedback::new(features, hit_count_weight, dictionary)))
            },
            Ok(tag) => Err(DecodeError::BadFeedbackTag(tag)),
            Err(error) => Err(error),
        }
    }
}

/// The contents of feedback that may be missing.
pub open spec fn feedback_model(feedback: Option<ExecutionFeedback>) -> Option<FeedbackModel> {
    match feedback {
        Some(feedback) => Some(feedback@),
        None => None,
    }
}

fn put_bytes(out: &mut Vec<u8>, bytes: &Vec<u8>)
    ensures
        final(out)@ == old(out)@ + encoded_bytes(bytes@),
{
    proof {
        reveal(encoded_bytes);
    }
    push_word(out, bytes.len() as u64);
    out.extend_from_slice(bytes.as_slice());
    assert(out@ =~= old(out)@ + encoded_bytes(bytes@));
}

fn put_draws(out: &mut Vec<u8>, draws: &Vec<DrawRecord>)
    ensures
        final(out)@ == old(out)@ + encoded_list(draws@, draw_code()),
{
    proof {
        reveal(encoded_list);
    }
    let ghost before = out@;
    push_word(out, draws.len() as u64);
    let ghost head = out@;
    let mut i: usize = 0;
    assert(draws@.take(0) =~= Seq::<DrawRecord>::empty());
    assert(head + joined(draws@.take(0), draw_code()) =~= head);
    while i < draws.len()
        invariant
            i <= draws@.len(),
            out@ == head + joined(draws@.take(i as int), draw_code()),
        decreases draws@.len() - i,
    {
        let ghost sofar = out@;
        let draw = draws[i];
        push_word(out, draw.start as u64);
        push_word(out, draw.len as u64);
        out.push(
            match draw.kind {
                DrawKind::Word => 0,
                DrawKind::Bytes => 1,
            },
        );
        proof {
            assert(out@ =~= sofar + encoded_draw(draw));
            assert(draws@.take(i + 1) =~= draws@.take(i as int).push(draw));
            lemma_joined_push(draws@.take(i as int), draw, draw_code());
            assert(out@ =~= head + joined(draws@.take(i + 1), draw_code()));
        }
        i += 1;
    }
    assert(draws@.take(draws@.len() as int) =~= draws@);
    assert(out@ =~= before + encoded_list(draws@, draw_code()));
}

fn put_semantics(out: &mut Vec<u8>, spans: &Vec<SemanticSpan>)
    ensures
        final(out)@ == old(out)@ + encoded_list(spans@, semantic_code()),
{
    proof {
        reveal(encoded_list);
    }
    let ghost before = out@;
    push_word(out, spans.len() as u64);
    let ghost head = out@;
    let mut i: usize = 0;
    assert(spans@.take(0) =~= Seq::<SemanticSpan>::empty());
    assert(head + joined(spans@.take(0), semantic_code()) =~= head);
    while i < spans.len()
        invariant
            i <= spans@.len(),
            out@ == head + joined(spans@.take(i as int), semantic_code()),
        decreases spans@.len() - i,
    {
        let ghost sofar = out@;
        let span = spans[i];
        push_word(out, span.start as u64);
        push_word(out, span.len as u64);
        out.push(
            match span.kind {
                SemanticKind::Length => 0,
                SemanticKind::Item => 1,
                SemanticKind::Variant => 2,
            },
        );
        proof {
            assert(out@ =~= sofar + encoded_semantic(span));
            assert(spans@.take(i + 1) =~= spans@.take(i as int).push(span));
            lemma_joined_push(spans@.take(i as int), span, semantic_code());
            assert(out@ =~= head + joined(spans@.take(i + 1), semantic_code()));
        }
        i += 1;
    }
    assert(spans@.take(spans@.len() as int) =~= spans@);
    assert(out@ =~= before + encoded_list(spans@, semantic_code()));
}

fn put_items(out: &mut Vec<u8>, items: &Vec<ItemRecord>)
    ensures
        final(out)@ == old(out)@ + encoded_list(items@, item_code()),
{
    proof {
        reveal(encoded_list);
    }
    let ghost before = out@;
    push_word(out, items.len() as u64);
    let ghost head = out@;
    let mut i: usize = 0;
    assert(items@.take(0) =~= Seq::<ItemRecord>::empty());
    assert(head + joined(items@.take(0), item_code()) =~= head);
    while i < items.len()
        invariant
            i <= items@.len(),
            out@ == head + joined(items@.take(i as int), item_code()),
        decreases items@.len() - i,
    {
        let ghost sofar = out@;
        let item = items[i];
        push_word(out, item.start as u64);
        push_word(out, item.len as u64);
        proof {
            assert(out@ =~= sofar + encoded_item(item));
            assert(items@.take(i + 1) =~= items@.take(i as int).push(item));
            lemma_joined_push(items@.take(i as int), item, item_code());
            assert(out@ =~= head + joined(items@.take(i + 1), item_code()));
        }
        i += 1;
    }
    assert(items@.take(items@.len() as int) =~= items@);
    assert(out@ =~= before + encoded_list(items@, item_code()));
}

fn put_sequences(out: &mut Vec<u8>, sequences: &Vec<SequenceRecord>)
    ensures
        final(out)@ == old(out)@ + encoded_list(record_models(sequences@), sequence_code()),
{
    proof {
        reveal(encoded_list);
    }
    let ghost before = out@;
    let ghost models = record_models(sequences@);
    push_word(out, sequences.len() as u64);
    let ghost head = out@;
    let mut i: usize = 0;
    assert(models.take(0) =~= Seq::<SequenceRecordModel>::empty());
    assert(head + joined(models.take(0), sequence_code()) =~= head);
    while i < sequences.len()
        invariant
            i <= sequences@.len(),
            models == record_models(sequences@),
            out@ == head + joined(models.take(i as int), sequence_code()),
        decreases sequences@.len() - i,
    {
        let ghost sofar = out@;
        let ghost model = models[i as int];
        push_word(out, sequences[i].length_start as u64);
        push_word(out, sequences[i].length_len as u64);
        put_items(out, &sequences[i].items);
        proof {
            assert(model == sequences@[i as int]@);
            assert(out@ =~= sofar + encoded_sequence(model));
            assert(models.take(i + 1) =~= models.take(i as int).push(model));
            lemma_joined_push(models.take(i as int), model, sequence_code());
            assert(out@ =~= head + joined(models.take(i + 1), sequence_code()));
        }
        i += 1;
    }
    assert(models.take(models.len() as int) =~= models);
    assert(out@ =~= before + encoded_list(models, sequence_code()));
}

fn put_ids(out: &mut Vec<u8>, ids: &Vec<CoverageId>)
    ensures
        final(out)@ == old(out)@ + encoded_list(ids@, id_code()),
{
    proof {
        reveal(encoded_list);
    }
    let ghost before = out@;
    push_word(out, ids.len() as u64);
    let ghost head = out@;
    let mut i: usize = 0;
    assert(ids@.take(0) =~= Seq::<CoverageId>::empty());
    assert(head + joined(ids@.take(0), id_code()) =~= head);
    while i < ids.len()
        invariant
            i <= ids@.len(),
            out@ == head + joined(ids@.take(i as int), id_code()),
        decreases ids@.len() - i,
    {
        push_word(out, ids[i].raw());
        proof {
            assert(ids@.take(i + 1) =~= ids@.take(i as int).push(ids@[i as int]));
            lemma_joined_push(ids@.take(i as int), ids@[i as int], id_code());
            assert(out@ =~= head + joined(ids@.take(i + 1), id_code()));
        }
        i += 1;
    }
    assert(ids@.take(ids@.len() as int) =~= ids@);
    assert(out@ =~= before + encoded_list(ids@, id_code()));
}

fn put_values(out: &mut Vec<u8>, values: &Vec<Vec<u8>>)
    ensures
        final(out)@ == old(out)@ + encoded_list(
            crate::mutation::byte_lists(values@),
            value_code(),
        ),
{
    proof {
        reveal(encoded_list);
    }
    let ghost before = out@;
    let ghost lists = crate::mutation::byte_lists(values@);
    push_word(out, values.len() as u64);
    let ghost head = out@;
    let mut i: usize = 0;
    assert(lists.take(0) =~= Seq::<Seq<u8>>::empty());
    assert(head + joined(lists.take(0), value_code()) =~= head);
    while i < values.len()
        invariant
            i <= values@.len(),
            lists == crate::mutation::byte_lists(values@),
            out@ == head + joined(lists.take(i as int), value_code()),
        decreases values@.len() - i,
    {
        put_bytes(out, &values[i]);
        proof {
            assert(lists[i as int] == values@[i as int]@);
            assert(lists.take(i + 1) =~= lists.take(i as int).push(lists[i as int]));
            lemma_joined_push(lists.take(i as int), lists[i as int], value_code());
            assert(out@ =~= head + joined(lists.take(i + 1), value_code()));
        }
        i += 1;
    }
    assert(lists.take(lists.len() as int) =~= lists);
    assert(out@ =~= before + encoded_list(lists, value_code()));
}

fn put_feedback(out: &mut Vec<u8>, feedback: &Option<ExecutionFeedback>)
    ensures
        final(out)@ == old(out)@ + encoded_feedback(feedback_model(*feedback)),
{
    proof {
        reveal(encoded_feedback);
    }
    let ghost before = out@;
    match feedback {
        None => {
            out.push(0);
        },
        Some(feedback) => {
            out.push(1);
            let ids = feedback.features.iter();
            proof {
                ascending_ids_are_unique(ids@, feedback@.features);
            }
            put_ids(out, ids);
            push_word(out, feedback.hit_count_weight);
            put_values(out, &feedback.dictionary);
        },
    }
    assert(out@ =~= before + encoded_feedback(feedback_model(*feedback)));
}

impl DetachedExecution {
    pub fn trace(&self) -> (trace: &Vec<u8>)
        ensures
            *trace == self.trace,
    {
        &self.trace
    }

    pub fn bytes_consumed(&self) -> (bytes: usize)
        ensures
            bytes == self.bytes_consumed,
    {
        self.bytes_consumed
    }

    pub fn feedback(&self) -> (feedback: Option<&ExecutionFeedback>)
        ensures
            match feedback {
                Some(feedback) => self.feedback == Some(*feedback),
                None => self.feedback is None,
            },
    {
        self.feedback.as_ref()
    }

    pub fn case_cost(&self) -> (cost: CaseCost)
        ensures
            cost == self.case_cost,
    {
        self.case_cost
    }

    /// The form of the execution between processes.
    pub fn encode(&self) -> (out: Vec<u8>)
        ensures
            out@ == encoded(self@),
    {
        let mut out: Vec<u8> = Vec::new();
        put_bytes(&mut out, &self.trace);
        put_draws(&mut out, &self.draws);
        put_semantics(&mut out, &self.semantics);
        put_sequences(&mut out, &self.sequences);
        push_word(&mut out, self.bytes_consumed as u64);
        push_word(&mut out, self.case_cost.raw() as u64);
        put_feedback(&mut out, &self.feedback);
        assert(out@ =~= encoded(self@));
        out
    }

    /// The execution that the bytes are, or why they are none.
    pub fn decode(bytes: &Vec<u8>) -> (execution: Result<DetachedExecution, String>)
        ensures
            match execution {
                Ok(execution) => decoded(bytes@) == Ok::<ExecutionModel, DecodeError>(execution@),
                Err(message) => decoded(bytes@) is Err && message@ == decoded(
                    bytes@,
                )->Err_0.text(),
            },
    {
        match DetachedExecution::parse(bytes) {
            Ok(execution) => Ok(execution),
            Err(error) => Err(error.message()),
        }
    }

    /// The execution that the bytes are, or why they are none.
    fn parse(bytes: &Vec<u8>) -> (execution: Result<DetachedExecution, DecodeError>)
        ensures
            match execution {
                Ok(execution) => decoded(bytes@) == Ok::<ExecutionModel, DecodeError>(execution@),
                Err(error) => decoded(bytes@) == Err::<ExecutionModel, DecodeError>(error),
            },
    {
        let mut reader = Reader { bytes, pos: 0 };
        assert(reader.rest() =~= bytes@);
        let trace = match reader.bytes() {
            Ok(trace) => trace,
            Err(error) => {
                return Err(error);
            },
        };
        let draws = match reader.draws() {
            Ok(draws) => draws,
            Err(error) => {
                return Err(error);
            },
        };
        let semantics = match reader.semantics() {
            Ok(semantics) => semantics,
            Err(error) => {
                return Err(error);
            },
        };
        let sequences = match reader.sequences() {
            Ok(sequences) => sequences,
            Err(error) => {
                return Err(error);
            },
        };
        let (bytes_consumed, cost) = match reader.pair() {
            Ok(pair) => pair,
            Err(error) => {
                return Err(error);
            },
        };
        let feedback = match reader.feedback() {
            Ok(feedback) => feedback,
            Err(error) => {
                return Err(error);
            },
        };
        if reader.pos != bytes.len() {
            return Err(DecodeError::Trailing);
        }
        Ok(
            DetachedExecution {
                trace,
                draws,
                semantics,
                sequences,
                bytes_consumed,
                feedback,
                case_cost: CaseCost::new(cost),
            },
        )
    }
}

/// The code of an execution begins with the length of its trace and the trace, then come the
/// number of its draws and each draw: where it starts, how long it is, and what it was for.
pub proof fn codes_begin_with_the_trace(execution: ExecutionModel)
    requires
        execution.draws.len() > 0,
    ensures
        ({
            let code = encoded(execution);
            let n = execution.trace.len() as int;
            let draw = execution.draws[0];
            &&& code.len() >= 8 + n + 8 + 17
            &&& code.subrange(0, 8) == word_bytes(execution.trace.len() as u64)
            &&& code.subrange(8, 8 + n) == execution.trace
            &&& code.subrange(8 + n, 16 + n) == word_bytes(execution.draws.len() as u64)
            &&& code.subrange(16 + n, 24 + n) == word_bytes(draw.start as u64)
            &&& code.subrange(24 + n, 32 + n) == word_bytes(draw.len as u64)
            &&& code[32 + n] == if draw.kind == DrawKind::Word {
                0u8
            } else {
                1u8
            }
        }),
{
    reveal(encoded_bytes);
    reveal(encoded_list);
    let draw = execution.draws[0];
    let first = encoded_draw(draw);
    let more = joined(execution.draws.skip(1), draw_code());
    let head = word_bytes(execution.trace.len() as u64);
    let count = word_bytes(execution.draws.len() as u64);
    assert(joined(execution.draws, draw_code()) == first + more);
    let front = (head + execution.trace) + (count + (first + more));
    let rest = encoded(execution).skip(front.len() as int);
    assert(front == encoded_bytes(execution.trace) + encoded_list(execution.draws, draw_code()));
    assert(encoded(execution) =~= front + rest);
    let start = word_bytes(draw.start as u64);
    let len = word_bytes(draw.len as u64);
    assert(first == start + len + seq![draw_tag(draw.kind)]);
    lemma_front(head, execution.trace, count, start, len, draw_tag(draw.kind), more, rest);
}

/// The parts of a code, by where they stand.
proof fn lemma_front(
    head: Seq<u8>,
    trace: Seq<u8>,
    count: Seq<u8>,
    start: Seq<u8>,
    len: Seq<u8>,
    tag: u8,
    more: Seq<u8>,
    rest: Seq<u8>,
)
    requires
        head.len() == 8,
        count.len() == 8,
        start.len() == 8,
        len.len() == 8,
    ensures
        ({
            let code = (head + trace) + (count + ((start + len + seq![tag]) + more)) + rest;
            let n = trace.len() as int;
            &&& code.len() >= 33 + n
            &&& code.subrange(0, 8) == head
            &&& code.subrange(8, 8 + n) == trace
            &&& code.subrange(8 + n, 16 + n) == count
            &&& code.subrange(16 + n, 24 + n) == start
            &&& code.subrange(24 + n, 32 + n) == len
            &&& code[32 + n] == tag
        }),
{
    let code = (head + trace) + (count + ((start + len + seq![tag]) + more)) + rest;
    let n = trace.len() as int;
    assert(code.subrange(0, 8) =~= head);
    assert(code.subrange(8, 8 + n) =~= trace);
    assert(code.subrange(8 + n, 16 + n) =~= count);
    assert(code.subrange(16 + n, 24 + n) =~= start);
    assert(code.subrange(24 + n, 32 + n) =~= len);
}

} // verus!
