//! The generator that a case runs on: it replays the bytes of the case, then goes on with zeros or
//! with fresh bytes, and records what was drawn.

use crate::candidate::{CandidateOrigin, OriginModel};
use crate::coverage::ExecutionFeedback;
use crate::execution::{
    feedback_model, record_models, DetachedExecution, DrawKind, DrawRecord, ExecutionModel, ItemRecord,
    SemanticKind, SemanticSpan, SequenceRecord, SequenceRecordModel,
};
use crate::order::{is_stable_order, lemma_sorted_by_is_arranged, sorted_by, stable_order};
use crate::random::{
    bytes_come_off_one_generator, is_seeded, nothing_runs_on, one_byte_runs_on, passes_through,
    runs_add_up, runs_on, starts, Source,
};
use crate::score::CaseCost;
use crate::targets::{le_value, read_le_word};
use crate::trace::{copy_bytes, NodeModel, ScalarSpan, Trace, TraceModel, MAX_PREFIX_LEN};
use rand::rngs::SmallRng;
use vstd::prelude::*;

verus! {

/// Where in the stream a boundary lies.
#[derive(Debug, Clone, Copy, PartialEq, Eq, Structural)]
pub enum BoundaryKind {
    /// The start of one child of a range.
    Item,
    /// The start of the draw of a variant.
    Variant,
    /// A hint of the harness.
    Hint,
}

/// A boundary inside a running case.
#[derive(Debug, Clone, Copy, PartialEq, Eq, Structural)]
pub struct Boundary {
    pub kind: BoundaryKind,
    /// The number of bytes drawn so far.
    pub cursor: usize,
}

/// What the bytes of a case are drawn from.
#[derive(Debug, PartialEq, Eq)]
pub struct StreamSpec {
    pub seed: u64,
    pub prefix: Vec<u8>,
    pub zero_tail: bool,
}

/// The generator of one case.
///
/// A harness draws from it. What was drawn is kept, with the spans in which it was drawn.
pub struct CaseRng<Session> {
    fallback: Source,
    seed: u64,
    prefix: Vec<u8>,
    zero_tail: bool,
    origin: CandidateOrigin,
    trace: Vec<u8>,
    draws: Vec<DrawRecord>,
    semantics: Vec<SemanticSpan>,
    scalars: Vec<ScalarSpan>,
    sequences: Vec<SequenceRecord>,
    session: Option<Session>,
}

/// The generator of one case, by contents. The number of bytes drawn is the length of the trace.
#[verifier::ext_equal]
pub struct RngModel {
    pub seed: u64,
    pub prefix: Seq<u8>,
    pub zero_tail: bool,
    pub origin: OriginModel,
    pub trace: Seq<u8>,
    pub draws: Seq<DrawRecord>,
    pub semantics: Seq<SemanticSpan>,
    pub scalars: Seq<ScalarSpan>,
    pub sequences: Seq<SequenceRecordModel>,
}

impl<Session> View for CaseRng<Session> {
    type V = RngModel;

    closed spec fn view(&self) -> RngModel {
        RngModel {
            seed: self.seed,
            prefix: self.prefix@,
            zero_tail: self.zero_tail,
            origin: self.origin@,
            trace: self.trace@,
            draws: self.draws@,
            semantics: self.semantics@,
            scalars: self.scalars@,
            sequences: record_models(self.sequences@),
        }
    }
}

/// A recorded span: not empty, and inside the bytes that are drawn and kept.
pub open spec fn recorded(start: usize, len: usize, drawn: nat) -> bool {
    len > 0 && start + len <= MAX_PREFIX_LEN && start + len <= drawn
}

/// Every recorded span lies inside the bytes that were drawn, and inside the bytes that are kept.
pub open spec fn spans_lie_inside(rng: RngModel) -> bool {
    &&& forall|i: int|
        0 <= i < rng.draws.len() ==> recorded(
            (#[trigger] rng.draws[i]).start,
            rng.draws[i].len,
            rng.trace.len(),
        )
    &&& forall|i: int|
        0 <= i < rng.semantics.len() ==> recorded(
            (#[trigger] rng.semantics[i]).start,
            rng.semantics[i].len,
            rng.trace.len(),
        )
    &&& forall|i: int|
        0 <= i < rng.sequences.len() ==> recorded(
            (#[trigger] rng.sequences[i]).length_start,
            rng.sequences[i].length_len,
            rng.trace.len(),
        )
}

/// The byte at a place of the stream: that of the prefix, or zero, or any.
pub open spec fn is_stream_byte(rng: RngModel, place: int, byte: u8) -> bool {
    if place < rng.prefix.len() {
        byte == rng.prefix[place]
    } else {
        rng.zero_tail ==> byte == 0
    }
}

/// The bytes drawn between two states.
pub open spec fn drawn(before: RngModel, after: RngModel) -> Seq<u8> {
    after.trace.skip(before.trace.len() as int)
}

/// `n` more bytes of the stream, behind those already drawn.
pub open spec fn reads(before: RngModel, after: RngModel, n: nat) -> bool {
    &&& after.trace.len() == before.trace.len() + n
    &&& after.trace.take(before.trace.len() as int) == before.trace
    &&& forall|i: int|
        before.trace.len() <= i < after.trace.len() ==> is_stream_byte(
            before,
            i,
            #[trigger] after.trace[i],
        )
}

/// The bytes drawn between two states that neither the prefix nor a tail of zeros gave.
pub open spec fn fresh_bytes(before: RngModel, after: RngModel) -> Seq<u8> {
    let drawn = before.trace.len() as int;
    let held = before.prefix.len() as int;
    let start = if drawn < held {
        held
    } else {
        drawn
    };
    if before.zero_tail || after.trace.len() <= start {
        Seq::empty()
    } else {
        after.trace.skip(start)
    }
}

/// The fresh bytes drawn between two states came off the source of the case, which went on by
/// just as many.
pub open spec fn draws_on<Session>(before: CaseRng<Session>, after: CaseRng<Session>) -> bool {
    runs_on(before.source(), after.source(), fresh_bytes(before@, after@))
}

/// The state with another trace.
pub open spec fn with_trace(rng: RngModel, trace: Seq<u8>) -> RngModel {
    RngModel { trace, ..rng }
}

/// The part of a span that is kept.
pub open spec fn kept_len(start: int, len: int) -> int {
    if len <= MAX_PREFIX_LEN - start {
        len
    } else {
        MAX_PREFIX_LEN - start
    }
}

/// A draw, recorded where it lies in the part that is kept.
pub open spec fn with_draw(rng: RngModel, start: int, len: int, kind: DrawKind) -> RngModel {
    if len == 0 || start >= MAX_PREFIX_LEN {
        rng
    } else {
        RngModel {
            draws: rng.draws.push(
                DrawRecord { start: start as usize, len: kept_len(start, len) as usize, kind },
            ),
            ..rng
        }
    }
}

/// A meaning, recorded for the bytes from `start` on.
pub open spec fn with_semantic(rng: RngModel, start: int, kind: SemanticKind) -> RngModel {
    let len = rng.trace.len() - start;
    if len <= 0 || start >= MAX_PREFIX_LEN {
        rng
    } else {
        RngModel {
            semantics: rng.semantics.push(
                SemanticSpan { start: start as usize, len: kept_len(start, len) as usize, kind },
            ),
            ..rng
        }
    }
}

/// A number below `span`, recorded for the bytes from `start` on.
pub open spec fn with_scalar(rng: RngModel, start: int, span: int) -> RngModel {
    let len = rng.trace.len() - start;
    if len <= 0 || start >= MAX_PREFIX_LEN {
        rng
    } else {
        RngModel {
            scalars: rng.scalars.push(
                ScalarSpan {
                    start: start as usize,
                    end: (start + kept_len(start, len)) as usize,
                    span: span as u128,
                },
            ),
            ..rng
        }
    }
}

/// A draw of `n` bytes of one kind.
pub open spec fn draws_bytes(before: RngModel, after: RngModel, n: nat, kind: DrawKind) -> bool {
    &&& reads(before, after, n)
    &&& after == with_draw(
        with_trace(before, after.trace),
        before.trace.len() as int,
        n as int,
        kind,
    )
}

/// The bound that a choice is drawn below: at least one, at most what 16 bits hold.
pub open spec fn choice_bound(upper: usize) -> int {
    if upper < 1 {
        1
    } else if upper > 65535 {
        65535
    } else {
        upper as int
    }
}

/// A choice below a bound, out of the lower 16 bits of a word of 32.
pub open spec fn chooses(
    before: RngModel,
    after: RngModel,
    upper: usize,
    kind: SemanticKind,
    choice: usize,
) -> bool {
    let start = before.trace.len() as int;
    let read = with_draw(with_trace(before, after.trace), start, 4, DrawKind::Word);
    &&& reads(before, after, 4)
    &&& after == with_scalar(with_semantic(read, start, kind), start, choice_bound(upper))
    &&& choice == (le_value(drawn(before, after)) % 65536) % choice_bound(upper)
}

/// The state at the start of a case.
pub open spec fn rng_of(case: TraceModel, origin: OriginModel) -> RngModel {
    RngModel {
        seed: case.seed,
        prefix: case.bytes(),
        zero_tail: case.zero_tail,
        origin,
        trace: Seq::empty(),
        draws: Seq::empty(),
        semantics: Seq::empty(),
        scalars: Seq::empty(),
        sequences: Seq::empty(),
    }
}

/// The case that replays what was drawn.
pub open spec fn forked(rng: RngModel) -> TraceModel {
    TraceModel {
        seed: rng.seed,
        root: NodeModel { events: Seq::empty() },
        flat: Some(rng.trace),
        zero_tail: rng.zero_tail,
    }
}

/// A forked case gives the bytes again that were drawn, for as long as there are any.
pub proof fn forked_cases_replay(rng: RngModel, origin: OriginModel, after: RngModel)
    requires
        reads(rng_of(forked(rng), origin), after, after.trace.len()),
        after.trace.len() <= rng.trace.len(),
    ensures
        after.trace == rng.trace.take(after.trace.len() as int),
{
    let start = rng_of(forked(rng), origin);
    assert forall|i: int| 0 <= i < after.trace.len() implies after.trace[i] == rng.trace[i] by {
        assert(is_stream_byte(start, i, after.trace[i]));
    }
    assert(after.trace =~= rng.trace.take(after.trace.len() as int));
}

/// A forked case whose tail is zeros gives zeros behind the bytes that were drawn.
pub proof fn forked_cases_end_in_zeros(rng: RngModel, origin: OriginModel, after: RngModel, i: int)
    requires
        rng.zero_tail,
        reads(rng_of(forked(rng), origin), after, after.trace.len()),
        rng.trace.len() <= i < after.trace.len(),
    ensures
        after.trace[i] == 0,
{
    assert(is_stream_byte(rng_of(forked(rng), origin), i, after.trace[i]));
}

/// To read in two steps is to read in one.
pub proof fn reads_add_up(first: RngModel, second: RngModel, third: RngModel, m: nat, n: nat)
    requires
        reads(first, second, m),
        reads(second, third, n),
        second.prefix == first.prefix,
        second.zero_tail == first.zero_tail,
    ensures
        reads(first, third, m + n),
{
    let kept = first.trace.len() as int;
    assert(third.trace.take(kept) =~= third.trace.take(second.trace.len() as int).take(kept));
    assert forall|i: int| first.trace.len() <= i < third.trace.len() implies is_stream_byte(
        first,
        i,
        #[trigger] third.trace[i],
    ) by {
        if i < second.trace.len() {
            assert(third.trace.take(second.trace.len() as int)[i] == second.trace[i]);
            assert(is_stream_byte(first, i, second.trace[i]));
        } else {
            assert(is_stream_byte(second, i, third.trace[i]));
        }
    }
}

/// An end of a range of lengths.
#[derive(Debug, Clone, Copy, PartialEq, Eq, Structural)]
pub enum Edge {
    Included(usize),
    Excluded(usize),
    Unbounded,
}

/// One above a number, where there is one.
pub open spec fn above(value: usize) -> int {
    if value < usize::MAX {
        value + 1
    } else {
        usize::MAX as int
    }
}

/// The least length of a range.
pub open spec fn range_start(low: Edge) -> int {
    match low {
        Edge::Included(value) => value as int,
        Edge::Excluded(value) => above(value),
        Edge::Unbounded => 0,
    }
}

/// The first length above a range.
pub open spec fn range_end(high: Edge) -> int {
    match high {
        Edge::Included(value) => above(value),
        Edge::Excluded(value) => value as int,
        Edge::Unbounded => 0,
    }
}

/// A range that a length can be drawn from: it has an upper end, and it is not empty.
pub open spec fn is_range(low: Edge, high: Edge) -> bool {
    high !is Unbounded && range_start(low) < range_end(high)
}

/// The least length of a range, and the number of its lengths.
fn normalize_range(low: Edge, high: Edge) -> (range: (usize, usize))
    requires
        is_range(low, high),
    ensures
        range.0 == range_start(low),
        range.1 == range_end(high) - range_start(low),
{
    let start: usize = match low {
        Edge::Included(value) => value,
        Edge::Excluded(value) => value.saturating_add(1),
        Edge::Unbounded => 0,
    };
    let end: usize = match high {
        Edge::Included(value) => value.saturating_add(1),
        Edge::Excluded(value) => value,
        Edge::Unbounded => 0,
    };
    (start, end - start)
}

/// A draw keeps the recorded spans inside the bytes that were drawn.
pub proof fn draws_keep_spans_inside(before: RngModel, after: RngModel, n: nat, kind: DrawKind)
    requires
        spans_lie_inside(before),
        draws_bytes(before, after, n, kind),
    ensures
        spans_lie_inside(after),
{
}

/// A choice keeps the recorded spans inside the bytes that were drawn.
pub proof fn choices_keep_spans_inside(
    before: RngModel,
    after: RngModel,
    upper: usize,
    kind: SemanticKind,
    choice: usize,
)
    requires
        spans_lie_inside(before),
        chooses(before, after, upper, kind, choice),
    ensures
        spans_lie_inside(after),
{
}

/// A choice lies below its bound.
pub proof fn choices_lie_below(
    before: RngModel,
    after: RngModel,
    upper: usize,
    kind: SemanticKind,
    choice: usize,
)
    requires
        chooses(before, after, upper, kind, choice),
    ensures
        choice < choice_bound(upper),
{
}

/// The children of a range, in the order in which they come.
pub struct RangeIter {
    length_start: usize,
    length_len: usize,
    len: usize,
    index: usize,
    order: Vec<usize>,
    items: Vec<(usize, ItemRecord)>,
}

/// The children of a range, by contents.
#[verifier::ext_equal]
pub struct RangeModel {
    /// Where the length was drawn.
    pub length_start: usize,
    pub length_len: usize,
    /// The number of children.
    pub len: usize,
    /// The number of children that have come.
    pub index: usize,
    /// The order that was asked for, or nothing.
    pub order: Seq<usize>,
    /// The spans of the children that are over, each with its place.
    pub items: Seq<(usize, ItemRecord)>,
}

impl View for RangeIter {
    type V = RangeModel;

    closed spec fn view(&self) -> RangeModel {
        RangeModel {
            length_start: self.length_start,
            length_len: self.length_len,
            len: self.len,
            index: self.index,
            order: self.order@,
            items: self.items@,
        }
    }
}

/// An order that names each of `len` children once.
pub open spec fn is_child_order(order: Seq<usize>, len: nat) -> bool {
    &&& order.len() == len
    &&& forall|i: int| 0 <= i < order.len() ==> #[trigger] order[i] < len
    &&& order.no_duplicates()
}

/// The child that comes at a place.
pub open spec fn child_at(range: RangeModel, place: int) -> int {
    if place < range.order.len() {
        range.order[place] as int
    } else {
        place
    }
}

/// Each child of a range comes at one place, and at one only.
pub proof fn children_come_once(range: RangeModel, child: int)
    requires
        range.order.len() == 0 || is_child_order(range.order, range.len as nat),
        0 <= child < range.len,
    ensures
        exists|place: int| 0 <= place < range.len && #[trigger] child_at(range, place) == child,
        forall|a: int, b: int|
            0 <= a < range.len && 0 <= b < range.len && #[trigger] child_at(range, a) == child
                && #[trigger] child_at(range, b) == child ==> a == b,
{
    if range.order.len() == 0 {
        assert(child_at(range, child) == child);
    } else {
        lemma_order_covers(range.order, range.len as nat, child);
        let place = choose|place: int|
            0 <= place < range.order.len() && range.order[place] == child;
        assert(child_at(range, place) == child);
    }
}

proof fn lemma_order_covers(order: Seq<usize>, len: nat, child: int)
    requires
        is_child_order(order, len),
        0 <= child < len,
    ensures
        exists|place: int| 0 <= place < order.len() && #[trigger] order[place] == child,
{
    let ints = Seq::new(order.len(), |i: int| order[i] as int);
    assert(ints.no_duplicates()) by {
        assert forall|i: int, j: int| 0 <= i < ints.len() && 0 <= j < ints.len() && i != j implies
        ints[i] != ints[j] by {
            assert(order[i] != order[j]);
        }
    }
    let all = vstd::set_lib::set_int_range(0, len as int);
    vstd::set_lib::lemma_int_range(0, len as int);
    ints.unique_seq_to_set();
    assert(ints.to_set().subset_of(all)) by {
        assert forall|x: int| ints.to_set().contains(x) implies all.contains(x) by {
            let i = choose|i: int| 0 <= i < ints.len() && ints[i] == x;
            assert(order[i] < len);
        }
    }
    vstd::set_lib::lemma_subset_equality(ints.to_set(), all);
    assert(ints.to_set().contains(child));
    let place = choose|place: int| 0 <= place < ints.len() && ints[place] == child;
    assert(order[place] == child);
}

/// One child of a range.
#[derive(Debug, Clone, Copy, PartialEq, Eq, Structural)]
pub struct ChildRng {
    index: usize,
    position: usize,
    item_start: usize,
}

impl ChildRng {
    /// The place at which the child came.
    pub closed spec fn place(self) -> usize {
        self.position
    }

    /// The number of bytes that were drawn before the child.
    pub closed spec fn start(self) -> usize {
        self.item_start
    }

    pub closed spec fn child(self) -> usize {
        self.index
    }

    /// The number of the child in its range, from zero.
    pub fn index(&self) -> (index: usize)
        ensures
            index == self.child(),
    {
        self.index
    }

    /// A number below `upper`, drawn inside the child.
    pub fn variant<Session>(&self, rng: &mut CaseRng<Session>, upper: usize) -> (choice: usize)
        ensures
            chooses(old(rng)@, final(rng)@, upper, SemanticKind::Variant, choice),
            final(rng).session_of() == old(rng).session_of(),
            draws_on(*old(rng), *final(rng)),
    {
        rng.variant(upper)
    }

    /// Ends the child: the bytes that it drew are recorded as one item.
    pub fn close<Session>(self, range: &mut RangeIter, rng: &mut CaseRng<Session>)
        ensures
            final(rng)@ == with_semantic(old(rng)@, self.start() as int, SemanticKind::Item),
            final(rng).session_of() == old(rng).session_of(),
            final(rng).source() == old(rng).source(),
            final(range)@ == with_item(old(range)@, old(rng)@, self),
    {
        let cursor: usize = rng.trace.len();
        if cursor > self.item_start && self.item_start < MAX_PREFIX_LEN {
            let len: usize = kept(self.item_start, cursor - self.item_start);
            range.items.push((self.position, ItemRecord { start: self.item_start, len }));
            rng.semantics.push(
                SemanticSpan { start: self.item_start, len, kind: SemanticKind::Item },
            );
        }
        assert(rng@ =~= with_semantic(old(rng)@, self.start() as int, SemanticKind::Item));
        assert(range@ =~= with_item(old(range)@, old(rng)@, self));
    }
}

/// A range with the item of a child that is over.
pub open spec fn with_item(range: RangeModel, rng: RngModel, child: ChildRng) -> RangeModel {
    with_item_at(range, rng, child.place(), child.start() as int)
}

/// A range with the item that stands at `place` and whose bytes were drawn from `start` on.
pub open spec fn with_item_at(
    range: RangeModel,
    rng: RngModel,
    place: usize,
    start: int,
) -> RangeModel {
    let len = rng.trace.len() - start;
    if len <= 0 || start >= MAX_PREFIX_LEN {
        range
    } else {
        RangeModel {
            items: range.items.push(
                (
                    place,
                    ItemRecord { start: start as usize, len: kept_len(start, len) as usize },
                ),
            ),
            ..range
        }
    }
}

/// The key that items are sorted by: their places.
pub open spec fn place_key() -> spec_fn((usize, ItemRecord)) -> Seq<u64> {
    |item: (usize, ItemRecord)| seq![item.0 as u64]
}

/// The spans of the items, by their places.
pub open spec fn items_in_order(items: Seq<(usize, ItemRecord)>) -> Seq<ItemRecord> {
    sorted_by(items, place_key()).map_values(|item: (usize, ItemRecord)| item.1)
}

/// The state behind a range whose children are all over: a range that drew its length, and has
/// items, is recorded as a sequence.
pub open spec fn with_sequence(rng: RngModel, range: RangeModel) -> RngModel {
    if range.length_len == 0 || range.length_start >= MAX_PREFIX_LEN || range.items.len() == 0 {
        rng
    } else {
        RngModel {
            sequences: rng.sequences.push(
                SequenceRecordModel {
                    length_start: range.length_start,
                    length_len: kept_len(
                        range.length_start as int,
                        range.length_len as int,
                    ) as usize,
                    items: items_in_order(range.items),
                },
            ),
            ..rng
        }
    }
}

fn kept(start: usize, len: usize) -> (kept: usize)
    requires
        start < MAX_PREFIX_LEN,
    ensures
        kept == kept_len(start as int, len as int),
{
    if len <= MAX_PREFIX_LEN - start {
        len
    } else {
        MAX_PREFIX_LEN - start
    }
}

impl RangeIter {
    /// The number of children.
    pub fn len(&self) -> (len: usize)
        ensures
            len == self@.len,
    {
        self.len
    }

    /// The number of children that are still to come.
    pub fn remaining(&self) -> (remaining: usize)
        ensures
            remaining == if self@.index < self@.len {
                self@.len - self@.index
            } else {
                0
            },
    {
        self.len.saturating_sub(self.index)
    }

    /// The children in another order.
    pub fn reorder(self, order: Vec<usize>) -> (range: RangeIter)
        requires
            self@.index == 0,
            is_child_order(order@, self@.len as nat),
        ensures
            range@ == (RangeModel { order: order@, ..self@ }),
    {
        let mut range = self;
        range.order = order;
        range
    }

    /// The next child.
    pub fn next<Session>(&mut self, rng: &CaseRng<Session>) -> (child: Option<ChildRng>)
        ensures
            child is Some <==> old(self)@.index < old(self)@.len,
            match child {
                Some(child) => {
                    &&& child.child() == child_at(old(self)@, old(self)@.index as int)
                    &&& child.place() == old(self)@.index
                    &&& child.start() == rng@.trace.len()
                    &&& final(self)@ == (RangeModel {
                        index: (old(self)@.index + 1) as usize,
                        ..old(self)@
                    })
                },
                None => final(self)@ == old(self)@,
            },
    {
        if self.index >= self.len {
            return None;
        }
        let position: usize = self.index;
        let index: usize = if position < self.order.len() {
            self.order[position]
        } else {
            position
        };
        self.index = position + 1;
        Some(ChildRng { index, position, item_start: rng.trace.len() })
    }

    /// Ends the range: its length and its items are recorded as one sequence.
    pub fn close<Session>(self, rng: &mut CaseRng<Session>)
        ensures
            final(rng)@ == with_sequence(old(rng)@, self@),
            final(rng).session_of() == old(rng).session_of(),
            final(rng).source() == old(rng).source(),
    {
        if self.length_len == 0 || self.length_start >= MAX_PREFIX_LEN || self.items.len() == 0 {
            return;
        }
        let items = sorted_items(&self.items);
        let length_len: usize = kept(self.length_start, self.length_len);
        rng.sequences.push(SequenceRecord { length_start: self.length_start, length_len, items });
        assert(rng@ =~= with_sequence(old(rng)@, self@));
    }
}

/// The spans of the items, by their places.
fn sorted_items(items: &Vec<(usize, ItemRecord)>) -> (sorted: Vec<ItemRecord>)
    ensures
        sorted@ == items_in_order(items@),
{
    let mut keys: Vec<Vec<u64>> = Vec::new();
    let mut i: usize = 0;
    while i < items.len()
        invariant
            i <= items@.len(),
            keys@.len() == i,
            forall|k: int| 0 <= k < i ==> (#[trigger] keys@[k])@ == place_key()(items@[k]),
        decreases items@.len() - i,
    {
        let key: Vec<u64> = vec![items[i].0 as u64];
        assert(key@ =~= place_key()(items@[i as int]));
        keys.push(key);
        i += 1;
    }
    let order = stable_order(&keys);
    proof {
        lemma_sorted_by_is_arranged(items@, keys@, order@, place_key());
    }
    let mut sorted: Vec<ItemRecord> = Vec::new();
    let mut k: usize = 0;
    while k < order.len()
        invariant
            k <= order@.len(),
            is_stable_order(keys@, order@),
            keys@.len() == items@.len(),
            sorted_by(items@, place_key()) == crate::order::arranged(items@, order@),
            sorted@.len() == k,
            forall|j: int|
                0 <= j < k ==> #[trigger] sorted@[j] == items@[order@[j] as int].1,
        decreases order@.len() - k,
    {
        assert(order@[k as int] < keys@.len());
        sorted.push(items[order[k]].1);
        k += 1;
    }
    assert(sorted@ =~= items_in_order(items@));
    sorted
}

/// What a case drew, and where the case came from.
pub struct Active {
    pub seed: u64,
    pub zero_tail: bool,
    pub trace: Vec<u8>,
    pub draws: Vec<DrawRecord>,
    pub semantics: Vec<SemanticSpan>,
    pub scalars: Vec<ScalarSpan>,
    pub sequences: Vec<SequenceRecord>,
    pub bytes_consumed: usize,
    pub origin: CandidateOrigin,
}

/// What a case drew, by contents.
#[verifier::ext_equal]
pub struct ActiveModel {
    pub seed: u64,
    pub zero_tail: bool,
    pub trace: Seq<u8>,
    pub draws: Seq<DrawRecord>,
    pub semantics: Seq<SemanticSpan>,
    pub scalars: Seq<ScalarSpan>,
    pub sequences: Seq<SequenceRecordModel>,
    pub bytes_consumed: usize,
    pub origin: OriginModel,
}

impl View for Active {
    type V = ActiveModel;

    open spec fn view(&self) -> ActiveModel {
        ActiveModel {
            seed: self.seed,
            zero_tail: self.zero_tail,
            trace: self.trace@,
            draws: self.draws@,
            semantics: self.semantics@,
            scalars: self.scalars@,
            sequences: record_models(self.sequences@),
            bytes_consumed: self.bytes_consumed,
            origin: self.origin@,
        }
    }
}

/// What a case drew, at its end.
pub open spec fn active_of(rng: RngModel) -> ActiveModel {
    ActiveModel {
        seed: rng.seed,
        zero_tail: rng.zero_tail,
        trace: rng.trace,
        draws: rng.draws,
        semantics: rng.semantics,
        scalars: rng.scalars,
        sequences: rng.sequences,
        bytes_consumed: rng.trace.len() as usize,
        origin: rng.origin,
    }
}

/// What a case drew that was run in another process.
pub open spec fn detached_active(rng: RngModel, execution: ExecutionModel) -> ActiveModel {
    ActiveModel {
        seed: rng.seed,
        zero_tail: rng.zero_tail,
        trace: execution.trace,
        draws: execution.draws,
        semantics: execution.semantics,
        scalars: Seq::empty(),
        sequences: execution.sequences,
        bytes_consumed: execution.bytes_consumed,
        origin: rng.origin,
    }
}

impl<Session> CaseRng<Session> {
    pub closed spec fn session_of(self) -> Option<Session> {
        self.session
    }

    /// Where the fresh bytes of the case come from.
    pub closed spec fn source(self) -> Source {
        self.fallback
    }

    /// A generator for a case.
    pub fn new(case: &Trace, origin: CandidateOrigin, session: Option<Session>) -> (rng: Self)
        ensures
            rng@ == rng_of(case@, origin@),
            rng.session_of() == session,
            starts(rng.source(), case@.seed),
    {
        let rng = CaseRng {
            fallback: Source::new(case.seed),
            seed: case.seed,
            prefix: case.flatten_prefix(),
            zero_tail: case.zero_tail,
            origin,
            trace: Vec::new(),
            draws: Vec::new(),
            semantics: Vec::new(),
            scalars: Vec::new(),
            sequences: Vec::new(),
            session,
        };
        assert(rng@ =~= rng_of(case@, origin@));
        rng
    }

    /// The seed of the case.
    pub fn seed(&self) -> (seed: u64)
        ensures
            seed == self@.seed,
    {
        self.seed
    }

    /// The case that replays what was drawn.
    pub fn fork_case(&self) -> (case: Trace)
        ensures
            case@ == forked(self@),
    {
        Trace::from_raw_parts(self.seed, copy_bytes(&self.trace), self.zero_tail)
    }

    /// The boundary of this kind at the present place.
    pub fn boundary(&self, kind: BoundaryKind) -> (boundary: Boundary)
        ensures
            boundary == (Boundary { kind, cursor: self@.trace.len() as usize }),
    {
        Boundary { kind, cursor: self.trace.len() }
    }

    /// A hint that a snapshot is worth while at the present place: nothing is drawn.
    pub fn checkpoint_hint(&self) -> (boundary: Boundary)
        ensures
            boundary == (Boundary { kind: BoundaryKind::Hint, cursor: self@.trace.len() as usize }),
    {
        self.boundary(BoundaryKind::Hint)
    }

    fn next_byte(&mut self) -> (byte: u8)
        ensures
            is_stream_byte(old(self)@, old(self)@.trace.len() as int, byte),
            final(self)@ == with_trace(old(self)@, old(self)@.trace.push(byte)),
            final(self).session_of() == old(self).session_of(),
            draws_on(*old(self), *final(self)),
    {
        let cursor: usize = self.trace.len();
        let byte: u8 = if cursor < self.prefix.len() {
            self.prefix[cursor]
        } else if self.zero_tail {
            0
        } else {
            self.fallback.next_byte()
        };
        self.trace.push(byte);
        proof {
            assert(self@ =~= with_trace(old(self)@, old(self)@.trace.push(byte)));
            if cursor < self.prefix.len() || self.zero_tail {
                nothing_runs_on(self.fallback);
                assert(fresh_bytes(old(self)@, self@) =~= Seq::empty());
            } else {
                one_byte_runs_on(old(self).fallback, self.fallback, byte);
                assert(fresh_bytes(old(self)@, self@) =~= seq![byte]);
            }
        }
        byte
    }

    /// `n` bytes, recorded as one draw.
    fn draw(&mut self, n: usize, kind: DrawKind)
        ensures
            draws_bytes(old(self)@, final(self)@, n as nat, kind),
            final(self).session_of() == old(self).session_of(),
            draws_on(*old(self), *final(self)),
    {
        let start: usize = self.trace.len();
        let mut i: usize = 0;
        assert(self@.trace.take(start as int) =~= self@.trace);
        assert(self@ =~= with_trace(old(self)@, self@.trace));
        proof {
            lemma_nothing_drawn(*self);
        }
        while i < n
            invariant
                i <= n,
                draws_on(*old(self), *self),
                start == old(self)@.trace.len(),
                reads(old(self)@, self@, i as nat),
                self@ == with_trace(old(self)@, self@.trace),
                self.session_of() == old(self).session_of(),
            decreases n - i,
        {
            let ghost before = self@;
            let ghost from = *self;
            let byte: u8 = self.next_byte();
            proof {
                assert(self@.trace.take(before.trace.len() as int) =~= before.trace);
                draws_add_up(*old(self), from, *self);
            }
            assert(self@.trace.take(start as int) =~= before.trace.take(start as int));
            assert forall|k: int| start <= k < self@.trace.len() implies is_stream_byte(
                old(self)@,
                k,
                #[trigger] self@.trace[k],
            ) by {
                if k < before.trace.len() {
                    assert(self@.trace[k] == before.trace[k]);
                }
            }
            i += 1;
        }
        let ghost read = self@;
        if n > 0 && start < MAX_PREFIX_LEN {
            let len: usize = kept(start, n);
            self.draws.push(DrawRecord { start, len, kind });
        }
        assert(fresh_bytes(old(self)@, self@) =~= fresh_bytes(old(self)@, read));
        assert(self@ =~= with_draw(
            with_trace(old(self)@, self@.trace),
            start as int,
            n as int,
            kind,
        ));
    }

    /// A number of 32 bits: the next four bytes, the least first.
    pub fn next_u32(&mut self) -> (value: u32)
        ensures
            draws_bytes(old(self)@, final(self)@, 4, DrawKind::Word),
            value == le_value(drawn(old(self)@, final(self)@)),
            final(self).session_of() == old(self).session_of(),
            draws_on(*old(self), *final(self)),
    {
        let start: usize = self.trace.len();
        self.draw(4, DrawKind::Word);
        let end: usize = self.trace.len();
        let value: u64 = read_le_word(&self.trace, start, end);
        proof {
            assert(self.trace@.subrange(start as int, end as int) =~= drawn(old(self)@, self@));
            crate::targets::lemma_le_value_bound(drawn(old(self)@, self@));
            lemma_pow256_small();
        }
        value as u32
    }

    /// A number of 64 bits: the next eight bytes, the least first.
    pub fn next_u64(&mut self) -> (value: u64)
        ensures
            draws_bytes(old(self)@, final(self)@, 8, DrawKind::Word),
            value == le_value(drawn(old(self)@, final(self)@)),
            final(self).session_of() == old(self).session_of(),
            draws_on(*old(self), *final(self)),
    {
        let start: usize = self.trace.len();
        self.draw(8, DrawKind::Word);
        let end: usize = self.trace.len();
        assert(self.trace@.subrange(start as int, end as int) =~= drawn(old(self)@, self@));
        read_le_word(&self.trace, start, end)
    }

    /// The next `n` bytes.
    pub fn fill_bytes(&mut self, n: usize) -> (bytes: Vec<u8>)
        ensures
            draws_bytes(old(self)@, final(self)@, n as nat, DrawKind::Bytes),
            bytes@ == drawn(old(self)@, final(self)@),
            final(self).session_of() == old(self).session_of(),
            draws_on(*old(self), *final(self)),
    {
        let start: usize = self.trace.len();
        self.draw(n, DrawKind::Bytes);
        let end: usize = self.trace.len();
        let mut bytes: Vec<u8> = Vec::with_capacity(n);
        bytes.extend_from_slice(
            vstd::slice::slice_subrange(self.trace.as_slice(), start, end),
        );
        assert(bytes@ =~= drawn(old(self)@, self@));
        bytes
    }

    /// A number below a bound, out of the next word.
    fn choose_below(&mut self, upper: usize, kind: SemanticKind) -> (choice: usize)
        ensures
            chooses(old(self)@, final(self)@, upper, kind, choice),
            choice < choice_bound(upper),
            final(self).session_of() == old(self).session_of(),
            draws_on(*old(self), *final(self)),
    {
        let bound: u64 = if upper < 1 {
            1
        } else if upper > 65535 {
            65535
        } else {
            upper as u64
        };
        let start: usize = self.trace.len();
        let word: u32 = self.next_u32();
        let choice: u64 = (word as u64 % 65536) % bound;
        let ghost read = self@;
        if start < MAX_PREFIX_LEN {
            let len: usize = kept(start, self.trace.len() - start);
            self.semantics.push(SemanticSpan { start, len, kind });
            self.scalars.push(ScalarSpan { start, end: start + len, span: bound as u128 });
        }
        assert(self@ =~= with_scalar(
            with_semantic(read, start as int, kind),
            start as int,
            choice_bound(upper),
        ));
        assert(drawn(old(self)@, self@) =~= drawn(old(self)@, read));
        assert(fresh_bytes(old(self)@, self@) =~= fresh_bytes(old(self)@, read));
        choice as usize
    }

    /// A number below `upper`.
    pub fn variant(&mut self, upper: usize) -> (choice: usize)
        ensures
            chooses(old(self)@, final(self)@, upper, SemanticKind::Variant, choice),
            choice < choice_bound(upper),
            final(self).session_of() == old(self).session_of(),
            draws_on(*old(self), *final(self)),
    {
        self.choose_below(upper, SemanticKind::Variant)
    }

    /// Draws a length from a range, and gives that many children.
    ///
    /// A range of one length draws nothing.
    pub fn range(&mut self, low: Edge, high: Edge) -> (range: RangeIter)
        requires
            is_range(low, high),
        ensures
            opens_range(old(self)@, final(self)@, low, high, range@),
            final(self).session_of() == old(self).session_of(),
            draws_on(*old(self), *final(self)),
    {
        let (start, width) = normalize_range(low, high);
        let length_start: usize = self.trace.len();
        proof {
            lemma_nothing_drawn(*self);
        }
        let len: usize = if width == 1 {
            start
        } else {
            start + self.choose_below(width, SemanticKind::Length)
        };
        let length_len: usize = self.trace.len() - length_start;
        let range = RangeIter {
            length_start,
            length_len,
            len,
            index: 0,
            order: Vec::new(),
            items: Vec::new(),
        };
        assert(range@.order =~= Seq::<usize>::empty());
        assert(range@.items =~= Seq::<(usize, ItemRecord)>::empty());
        range
    }

    /// The stream that the case is drawn from.
    pub fn snapshot_stream(&self) -> (spec: StreamSpec)
        ensures
            spec.seed == self@.seed,
            spec.prefix@ == self@.prefix,
            spec.zero_tail == self@.zero_tail,
    {
        StreamSpec {
            seed: self.seed,
            prefix: copy_bytes(&self.prefix),
            zero_tail: self.zero_tail,
        }
    }

    /// The number of bytes drawn so far.
    pub fn snapshot_cursor(&self) -> (cursor: usize)
        ensures
            cursor == self@.trace.len(),
    {
        self.trace.len()
    }

    /// The bytes drawn so far.
    pub fn snapshot_trace(&self) -> (trace: &Vec<u8>)
        ensures
            trace@ == self@.trace,
    {
        &self.trace
    }

    /// Goes on with another stream, which has to begin with the bytes drawn so far.
    pub fn snapshot_install_stream(&mut self, spec: StreamSpec) -> (installed: Result<(), String>)
        ensures
            match installed {
                Ok(_) => {
                    &&& begins_with(spec.prefix@, old(self)@.trace)
                    &&& final(self)@ == (RngModel {
                        seed: spec.seed,
                        prefix: spec.prefix@,
                        zero_tail: spec.zero_tail,
                        ..old(self)@
                    })
                },
                Err(error) => {
                    &&& !begins_with(spec.prefix@, old(self)@.trace)
                    &&& error@ == "stream prefix does not match consumed bytes"@
                    &&& final(self)@ == old(self)@
                },
            },
            final(self).session_of() == old(self).session_of(),
            installed is Ok ==> starts(final(self).source(), spec.seed),
            installed is Err ==> final(self).source() == old(self).source(),
    {
        let cursor: usize = self.trace.len();
        let mut same: bool = spec.prefix.len() >= cursor;
        let mut i: usize = 0;
        while same && i < cursor
            invariant
                i <= cursor,
                cursor == self.trace@.len(),
                same ==> cursor <= spec.prefix@.len(),
                same ==> forall|k: int| 0 <= k < i ==> spec.prefix@[k] == self.trace@[k],
                !same ==> !begins_with(spec.prefix@, self.trace@),
            decreases cursor - i,
        {
            if spec.prefix[i] != self.trace[i] {
                assert(spec.prefix@.take(cursor as int)[i as int] != self.trace@[i as int]);
                same = false;
            }
            i += 1;
        }
        if !same {
            return Err("stream prefix does not match consumed bytes".to_owned());
        }
        assert(spec.prefix@.take(cursor as int) =~= self.trace@);
        self.seed = spec.seed;
        self.prefix = spec.prefix;
        self.zero_tail = spec.zero_tail;
        self.fallback = Source::new(spec.seed);
        Ok(())
    }

    /// The case that replays an execution of this candidate.
    pub fn snapshot_case(&self, execution: &DetachedExecution) -> (case: Trace)
        ensures
            case@ == forked(with_trace(self@, execution@.trace)),
    {
        Trace::from_raw_parts(self.seed, copy_bytes(&execution.trace), self.zero_tail)
    }

    /// What was drawn, at the end of the case, and the session of its capture.
    pub fn into_active(self) -> (parts: (Active, Option<Session>))
        ensures
            parts.0@ == active_of(self@),
            parts.1 == self.session_of(),
    {
        let bytes_consumed: usize = self.trace.len();
        let active = Active {
            seed: self.seed,
            zero_tail: self.zero_tail,
            trace: self.trace,
            draws: self.draws,
            semantics: self.semantics,
            scalars: self.scalars,
            sequences: self.sequences,
            bytes_consumed,
            origin: self.origin,
        };
        assert(active@ =~= active_of(self@));
        (active, self.session)
    }

    /// What an execution of this candidate in another process drew, the feedback and the cost of
    /// it, and the session of the capture in this process.
    pub fn into_detached(self, execution: DetachedExecution) -> (parts: (
        Active,
        Option<ExecutionFeedback>,
        CaseCost,
        Option<Session>,
    ))
        ensures
            parts.0@ == detached_active(self@, execution@),
            feedback_model(parts.1) == execution@.feedback,
            parts.2 == execution@.case_cost,
            parts.3 == self.session_of(),
    {
        let active = Active {
            seed: self.seed,
            zero_tail: self.zero_tail,
            trace: execution.trace,
            draws: execution.draws,
            semantics: execution.semantics,
            scalars: Vec::new(),
            sequences: execution.sequences,
            bytes_consumed: execution.bytes_consumed,
            origin: self.origin,
        };
        assert(active@ =~= detached_active(self@, execution@));
        (active, execution.feedback, execution.case_cost, self.session)
    }
}

/// The end of a child keeps the recorded spans inside the bytes that were drawn.
pub proof fn items_keep_spans_inside(rng: RngModel, start: int)
    requires
        spans_lie_inside(rng),
        0 <= start,
    ensures
        spans_lie_inside(with_semantic(rng, start, SemanticKind::Item)),
{
}

/// The end of a range keeps the recorded spans inside the bytes that were drawn.
pub proof fn sequences_keep_spans_inside(rng: RngModel, range: RangeModel)
    requires
        spans_lie_inside(rng),
        range.length_start + range.length_len <= rng.trace.len(),
    ensures
        spans_lie_inside(with_sequence(rng, range)),
{
}

/// Another stream that begins with the bytes drawn so far gives these bytes again when the case
/// is replayed.
pub proof fn installed_streams_agree(rng: RngModel, prefix: Seq<u8>, i: int)
    requires
        begins_with(prefix, rng.trace),
        0 <= i < rng.trace.len(),
    ensures
        prefix[i] == rng.trace[i],
{
    assert(prefix.take(rng.trace.len() as int)[i] == prefix[i]);
}

/// Bytes that begin with others.
pub open spec fn begins_with(bytes: Seq<u8>, start: Seq<u8>) -> bool {
    bytes.len() >= start.len() && bytes.take(start.len() as int) == start
}

/// A range opened with a length from `low` to `high`.
pub open spec fn opens_range(
    before: RngModel,
    after: RngModel,
    low: Edge,
    high: Edge,
    range: RangeModel,
) -> bool {
    let start = range_start(low);
    let width = range_end(high) - start;
    &&& range.length_start == before.trace.len()
    &&& range.length_len == after.trace.len() - before.trace.len()
    &&& range.index == 0
    &&& range.order == Seq::<usize>::empty()
    &&& range.items == Seq::<(usize, ItemRecord)>::empty()
    &&& start <= range.len < start + width
    &&& if width == 1 {
        after == before
    } else {
        chooses(
            before,
            after,
            width as usize,
            SemanticKind::Length,
            (range.len - start) as usize,
        )
    }
}

proof fn lemma_pow256_small()
    ensures
        crate::targets::pow256(4) == 0x1_0000_0000,
{
    reveal_with_fuel(crate::targets::pow256, 5);
}

/// Nothing drawn is nothing fresh.
pub(crate) proof fn lemma_nothing_drawn<Session>(rng: CaseRng<Session>)
    ensures
        draws_on(rng, rng),
{
    assert(fresh_bytes(rng@, rng@) =~= Seq::empty());
    nothing_runs_on(rng.source());
}

/// To draw twice is to draw once: the fresh bytes of both come off the source one after the
/// other.
pub proof fn draws_add_up<Session>(
    first: CaseRng<Session>,
    second: CaseRng<Session>,
    third: CaseRng<Session>,
)
    requires
        draws_on(first, second),
        draws_on(second, third),
        second@.prefix == first@.prefix,
        second@.zero_tail == first@.zero_tail,
        first@.trace.len() <= second@.trace.len() <= third@.trace.len(),
        third@.trace.take(second@.trace.len() as int) == second@.trace,
    ensures
        draws_on(first, third),
{
    let a = fresh_bytes(first@, second@);
    let b = fresh_bytes(second@, third@);
    runs_add_up(first.source(), second.source(), third.source(), a, b);
    assert(a + b =~= fresh_bytes(first@, third@)) by {
        let n = second@.trace.len() as int;
        assert forall|i: int| 0 <= i < n implies second@.trace[i] == third@.trace[i] by {
            assert(third@.trace.take(n)[i] == third@.trace[i]);
        }
    }
}

/// A state that differs in its records only goes on as the other does.
pub(crate) proof fn lemma_records_draw_nothing<Session>(
    first: CaseRng<Session>,
    second: CaseRng<Session>,
    third: CaseRng<Session>,
)
    requires
        draws_on(first, second),
        third.source() == second.source(),
        third@.trace == second@.trace,
    ensures
        draws_on(first, third),
{
}

/// The fresh bytes of a case are those of its seed: behind the prefix, and unless the tail is
/// zeros, the first byte is the first one that a generator gives which was seeded with the seed
/// of the case, and each further byte is the next one that the same generator gives.
pub proof fn fresh_bytes_are_those_of_the_seed<Session>(
    start: CaseRng<Session>,
    end: CaseRng<Session>,
    seed: u64,
)
    requires
        starts(start.source(), seed),
        draws_on(start, end),
        start@.trace.len() <= start@.prefix.len() < end@.trace.len(),
        !start@.zero_tail,
    ensures
        exists|states: Seq<SmallRng>|
            #[trigger] passes_through(states, end@.trace.skip(start@.prefix.len() as int))
                && is_seeded(states[0], seed),
{
    bytes_come_off_one_generator(
        start.source(),
        end.source(),
        seed,
        end@.trace.skip(start@.prefix.len() as int),
    );
}

/// The bytes of the prefix come first, each at its place; behind it a tail of zeros is zeros.
pub proof fn prefixes_come_first(before: RngModel, after: RngModel, n: nat, i: int)
    requires
        reads(before, after, n),
        before.trace.len() <= i < before.trace.len() + n,
    ensures
        i < before.prefix.len() ==> after.trace[i] == before.prefix[i],
        i >= before.prefix.len() && before.zero_tail ==> after.trace[i] == 0,
        after.trace.len() == before.trace.len() + n,
        after.trace.subrange(0, before.trace.len() as int) == before.trace,
{
    assert(is_stream_byte(before, i, after.trace[i]));
    assert(after.trace.subrange(0, before.trace.len() as int) =~= after.trace.take(
        before.trace.len() as int,
    ));
}

/// The number that four bytes stand for, the least first.
proof fn lemma_four_bytes(bytes: Seq<u8>)
    requires
        bytes.len() == 4,
    ensures
        le_value(bytes) == bytes[0] + 256 * bytes[1] + 65536 * bytes[2] + 16777216 * bytes[3],
{
    reveal_with_fuel(le_value, 5);
    assert(bytes.skip(1).skip(1)[0] == bytes[2]);
    assert(bytes.skip(1).skip(1).skip(1)[0] == bytes[3]);
}

/// A word is made of the next four bytes, the least first, and is recorded as one draw.
pub proof fn words_are_little_endian(before: RngModel, after: RngModel, value: u32)
    requires
        draws_bytes(before, after, 4, DrawKind::Word),
        value == le_value(drawn(before, after)),
        before.trace.len() + 4 <= MAX_PREFIX_LEN,
    ensures
        ({
            let n = before.trace.len() as int;
            &&& value == after.trace[n] + 256 * after.trace[n + 1] + 65536 * after.trace[n + 2]
                + 16777216 * after.trace[n + 3]
            &&& after.draws == before.draws.push(
                DrawRecord { start: n as usize, len: 4, kind: DrawKind::Word },
            )
            &&& after.semantics == before.semantics
            &&& after.scalars == before.scalars
            &&& after.sequences == before.sequences
        }),
{
    lemma_four_bytes(drawn(before, after));
}

/// A choice is made by the next two bytes, the least first, around its bound; two more bytes are
/// passed over. The four of them are recorded as one draw, with their meaning and their bound.
pub proof fn choices_go_by_two_bytes(
    before: RngModel,
    after: RngModel,
    upper: usize,
    kind: SemanticKind,
    choice: usize,
)
    requires
        chooses(before, after, upper, kind, choice),
        1 <= upper <= 65535,
        before.trace.len() + 4 <= MAX_PREFIX_LEN,
    ensures
        ({
            let n = before.trace.len() as int;
            &&& choice == (after.trace[n] + 256 * after.trace[n + 1]) % upper as int
            &&& after.trace.len() == n + 4
            &&& after.draws == before.draws.push(
                DrawRecord { start: n as usize, len: 4, kind: DrawKind::Word },
            )
            &&& after.semantics == before.semantics.push(
                SemanticSpan { start: n as usize, len: 4, kind },
            )
            &&& after.scalars == before.scalars.push(
                ScalarSpan { start: n as usize, end: (n + 4) as usize, span: upper as u128 },
            )
            &&& after.sequences == before.sequences
            &&& after.prefix == before.prefix
            &&& after.seed == before.seed
        }),
{
    let n = before.trace.len() as int;
    lemma_four_bytes(drawn(before, after));
    let low = after.trace[n] + 256 * after.trace[n + 1];
    let high = after.trace[n + 2] + 256 * after.trace[n + 3];
    assert(le_value(drawn(before, after)) == low + 65536 * high);
    assert((low + 65536 * high) % 65536 == low);
}

/// A range has a length between its ends: from the lower one on, and up to the upper one if that
/// is included. A range of one length draws nothing; in any other the length goes by two bytes,
/// counted from the least length, so that zeros give the least.
pub proof fn lengths_lie_between_the_ends(
    before: RngModel,
    after: RngModel,
    low: usize,
    high: usize,
    range: RangeModel,
)
    requires
        low <= high < usize::MAX,
        opens_range(before, after, Edge::Included(low), Edge::Included(high), range),
        before.trace.len() + 4 <= MAX_PREFIX_LEN,
    ensures
        low <= range.len <= high,
        low == high ==> after == before && range.length_len == 0,
        low < high && high - low < 65535 ==> {
            let n = before.trace.len() as int;
            &&& range.length_start == n
            &&& range.length_len == 4
            &&& range.len == low + (after.trace[n] + 256 * after.trace[n + 1]) % (high - low + 1)
        },
        range.index == 0,
{
    if low < high && high - low < 65535 {
        choices_go_by_two_bytes(
            before,
            after,
            (high - low + 1) as usize,
            SemanticKind::Length,
            (range.len - low) as usize,
        );
    }
}

/// An upper end that is left out is one more than one that is not.
pub proof fn excluded_ends_are_one_more(low: Edge, high: usize)
    requires
        high < usize::MAX,
    ensures
        range_end(Edge::Excluded((high + 1) as usize)) == range_end(Edge::Included(high)),
        range_start(Edge::Excluded(high)) == range_start(Edge::Included((high + 1) as usize)),
        range_start(Edge::Unbounded) == 0,
        !is_range(low, Edge::Unbounded),
{
}

/// A range that drew its length and has items is recorded once, with its items in the order of
/// their places; every other range leaves no record.
pub proof fn ranges_are_recorded_in_order(rng: RngModel, range: RangeModel)
    requires
        range.length_start + range.length_len <= MAX_PREFIX_LEN,
    ensures
        range.length_len > 0 && range.items.len() > 0 ==> {
            let after = with_sequence(rng, range);
            &&& after.sequences.len() == rng.sequences.len() + 1
            &&& after.sequences.last().length_start == range.length_start
            &&& after.sequences.last().length_len == range.length_len
            &&& after.sequences.last().items.len() == range.items.len()
            &&& after.trace == rng.trace
            &&& after.draws == rng.draws
            &&& after.scalars == rng.scalars
        },
        range.length_len == 0 || range.items.len() == 0 ==> with_sequence(rng, range) == rng,
{
    crate::order::sorting_keeps_items(range.items, place_key());
}

} // verus!
