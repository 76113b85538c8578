//! The byte path of one case, as a tree of draws and ranges.

use vstd::prelude::*;

verus! {

/// Longest byte path that is mutated or reduced.
pub const MAX_PREFIX_LEN: usize = 4096;

/// What a draw is made for.
#[derive(Debug, Clone, Copy, PartialEq, Eq, Structural)]
pub enum ByteAffinity {
    /// Any value.
    Any,
    /// Best when zero.
    Zero,
}

/// One event of a case.
#[derive(Debug, PartialEq, Eq)]
pub enum TraceEvent {
    /// Bytes drawn at once.
    Draw { bytes: Vec<u8>, affinity: ByteAffinity },
    /// A generated sequence: the bytes of its length, then its items.
    Range { length: Vec<u8>, children: Vec<TraceNode> },
}

/// The events of a case, or of one item of a range, in order.
#[derive(Debug, PartialEq, Eq)]
pub struct TraceNode {
    pub events: Vec<TraceEvent>,
}

/// A replayable case: its byte path, and what follows the path's end.
#[derive(Debug, PartialEq, Eq)]
pub struct Trace {
    /// Seed of the bytes behind the end of the path.
    pub seed: u64,
    pub root: TraceNode,
    /// The path where it has no structure, or where its flat form is known.
    pub flat: Option<Vec<u8>>,
    /// The bytes behind the end of the path are all zero.
    pub zero_tail: bool,
}

/// A replayable case.
pub type Case = Trace;

/// A run of bytes drawn at once.
#[derive(Debug, Clone, Copy, PartialEq, Eq, Structural)]
pub struct DrawSpan {
    pub start: usize,
    pub end: usize,
    pub affinity: ByteAffinity,
}

/// A run of bytes that is read as one number, below `span` where that is not zero.
#[derive(Debug, Clone, Copy, PartialEq, Eq, Structural)]
pub struct ScalarSpan {
    pub start: usize,
    pub end: usize,
    pub span: u128,
}

/// The bytes `start..end` of one item of a sequence.
#[derive(Debug, Clone, Copy, PartialEq, Eq, Structural)]
pub struct ItemSpan {
    pub start: usize,
    pub end: usize,
}

/// A generated sequence: where its length stands, and its items.
#[derive(Debug, PartialEq, Eq)]
pub struct SequenceSpan {
    pub length_start: usize,
    pub length_len: usize,
    pub items: Vec<ItemSpan>,
}

/// A sequence span by its contents.
#[verifier::ext_equal]
pub struct SequenceModel {
    pub length_start: usize,
    pub length_len: usize,
    pub items: Seq<ItemSpan>,
}

impl View for SequenceSpan {
    type V = SequenceModel;

    open spec fn view(&self) -> SequenceModel {
        SequenceModel {
            length_start: self.length_start,
            length_len: self.length_len,
            items: self.items@,
        }
    }
}

/// The views of a list of sequence spans.
pub open spec fn sequence_models(sequences: Seq<SequenceSpan>) -> Seq<SequenceModel> {
    sequences.map_values(|sequence: SequenceSpan| sequence@)
}

impl DrawSpan {
    pub fn len(&self) -> (len: usize)
        ensures
            len == span_len(self.start, self.end),
    {
        self.end.saturating_sub(self.start)
    }

    pub fn is_empty(&self) -> (empty: bool)
        ensures
            empty == (self.start >= self.end),
    {
        self.start >= self.end
    }
}

impl ScalarSpan {
    pub fn len(&self) -> (len: usize)
        ensures
            len == span_len(self.start, self.end),
    {
        self.end.saturating_sub(self.start)
    }

    pub fn is_empty(&self) -> (empty: bool)
        ensures
            empty == (self.start >= self.end),
    {
        self.start >= self.end
    }
}

impl ItemSpan {
    pub fn len(&self) -> (len: usize)
        ensures
            len == span_len(self.start, self.end),
    {
        self.end.saturating_sub(self.start)
    }

    pub fn is_empty(&self) -> (empty: bool)
        ensures
            empty == (self.start >= self.end),
    {
        self.start >= self.end
    }
}

/// Bytes in `start..end`.
pub open spec fn span_len(start: usize, end: usize) -> usize {
    if start <= end {
        (end - start) as usize
    } else {
        0
    }
}

impl Clone for SequenceSpan {
    fn clone(&self) -> (copy: SequenceSpan)
        ensures
            copy@ == self@,
    {
        let mut items: Vec<ItemSpan> = Vec::with_capacity(self.items.len());
        let mut i: usize = 0;
        while i < self.items.len()
            invariant
                i <= self.items@.len(),
                items@ == self.items@.take(i as int),
            decreases self.items@.len() - i,
        {
            items.push(self.items[i]);
            i += 1;
        }
        assert(items@ =~= self.items@);
        SequenceSpan { length_start: self.length_start, length_len: self.length_len, items }
    }
}

/// Copy a list of sequence spans.
pub fn copy_sequences(sequences: &Vec<SequenceSpan>) -> (copy: Vec<SequenceSpan>)
    ensures
        sequence_models(copy@) == sequence_models(sequences@),
{
    let mut copy: Vec<SequenceSpan> = Vec::with_capacity(sequences.len());
    let mut i: usize = 0;
    while i < sequences.len()
        invariant
            i <= sequences@.len(),
            copy@.len() == i,
            forall|k: int| 0 <= k < i ==> #[trigger] copy@[k]@ == sequences@[k]@,
        decreases sequences@.len() - i,
    {
        copy.push(sequences[i].clone());
        i += 1;
    }
    assert(sequence_models(copy@) =~= sequence_models(sequences@));
    copy
}

/// Copy a list of draw spans.
pub fn copy_draws(draws: &Vec<DrawSpan>) -> (copy: Vec<DrawSpan>)
    ensures
        copy@ == draws@,
{
    let mut copy: Vec<DrawSpan> = Vec::with_capacity(draws.len());
    let mut i: usize = 0;
    while i < draws.len()
        invariant
            i <= draws@.len(),
            copy@ == draws@.take(i as int),
        decreases draws@.len() - i,
    {
        copy.push(draws[i]);
        i += 1;
    }
    assert(copy@ =~= draws@);
    copy
}

/// Copy a list of scalar spans.
pub fn copy_scalars(scalars: &Vec<ScalarSpan>) -> (copy: Vec<ScalarSpan>)
    ensures
        copy@ == scalars@,
{
    let mut copy: Vec<ScalarSpan> = Vec::with_capacity(scalars.len());
    let mut i: usize = 0;
    while i < scalars.len()
        invariant
            i <= scalars@.len(),
            copy@ == scalars@.take(i as int),
        decreases scalars@.len() - i,
    {
        copy.push(scalars[i]);
        i += 1;
    }
    assert(copy@ =~= scalars@);
    copy
}

/// Copy bytes.
pub fn copy_bytes(bytes: &Vec<u8>) -> (copy: Vec<u8>)
    ensures
        copy@ == bytes@,
{
    let mut copy: Vec<u8> = Vec::with_capacity(bytes.len());
    copy.extend_from_slice(bytes.as_slice());
    assert(copy@ =~= bytes@);
    copy
}

/// An event by its contents.
#[verifier::ext_equal]
pub enum EventModel {
    Draw { bytes: Seq<u8>, affinity: ByteAffinity },
    Range { length: Seq<u8>, children: Seq<NodeModel> },
}

/// A node by its contents.
#[verifier::ext_equal]
pub struct NodeModel {
    pub events: Seq<EventModel>,
}

/// A case by its contents.
#[verifier::ext_equal]
pub struct TraceModel {
    pub seed: u64,
    pub root: NodeModel,
    pub flat: Option<Seq<u8>>,
    pub zero_tail: bool,
}

pub open spec fn event_model(event: TraceEvent) -> EventModel
    decreases event,
{
    match event {
        TraceEvent::Draw { bytes, affinity } => EventModel::Draw { bytes: bytes@, affinity },
        TraceEvent::Range { length, children } => EventModel::Range {
            length: length@,
            children: node_models(children@),
        },
    }
}

pub open spec fn node_model(node: TraceNode) -> NodeModel
    decreases node,
{
    NodeModel { events: event_models(node.events@) }
}

pub open spec fn event_models(events: Seq<TraceEvent>) -> Seq<EventModel>
    decreases events,
{
    if events.len() == 0 {
        Seq::empty()
    } else {
        event_models(events.drop_last()).push(event_model(events.last()))
    }
}

pub open spec fn node_models(nodes: Seq<TraceNode>) -> Seq<NodeModel>
    decreases nodes,
{
    if nodes.len() == 0 {
        Seq::empty()
    } else {
        node_models(nodes.drop_last()).push(node_model(nodes.last()))
    }
}

impl View for Trace {
    type V = TraceModel;

    open spec fn view(&self) -> TraceModel {
        TraceModel {
            seed: self.seed,
            root: node_model(self.root),
            flat: match self.flat {
                Some(bytes) => Some(bytes@),
                None => None,
            },
            zero_tail: self.zero_tail,
        }
    }
}

/// Bytes of one event: a draw's own, or a range's length and then its items.
pub open spec fn event_bytes(event: EventModel) -> Seq<u8>
    decreases event,
{
    match event {
        EventModel::Draw { bytes, .. } => bytes,
        EventModel::Range { length, children } => length + nodes_bytes(children),
    }
}

/// Bytes of a list of events.
pub open spec fn events_bytes(events: Seq<EventModel>) -> Seq<u8>
    decreases events,
{
    if events.len() == 0 {
        Seq::empty()
    } else {
        events_bytes(events.drop_last()) + event_bytes(events.last())
    }
}

/// Bytes of a list of items.
pub open spec fn nodes_bytes(nodes: Seq<NodeModel>) -> Seq<u8>
    decreases nodes,
{
    if nodes.len() == 0 {
        Seq::empty()
    } else {
        nodes_bytes(nodes.drop_last()) + node_bytes(nodes.last())
    }
}

/// Bytes of a node.
pub open spec fn node_bytes(node: NodeModel) -> Seq<u8>
    decreases node,
{
    events_bytes(node.events)
}

impl TraceModel {
    /// The byte path of the case.
    pub open spec fn bytes(self) -> Seq<u8> {
        match self.flat {
            Some(bytes) => bytes,
            None => node_bytes(self.root),
        }
    }
}

pub(crate) proof fn lemma_event_models(events: Seq<TraceEvent>)
    ensures
        event_models(events).len() == events.len(),
        forall|i: int|
            0 <= i < events.len() ==> #[trigger] event_models(events)[i] == event_model(events[i]),
    decreases events.len(),
{
    if events.len() > 0 {
        lemma_event_models(events.drop_last());
    }
}

pub(crate) proof fn lemma_node_models(nodes: Seq<TraceNode>)
    ensures
        node_models(nodes).len() == nodes.len(),
        forall|i: int|
            0 <= i < nodes.len() ==> #[trigger] node_models(nodes)[i] == node_model(nodes[i]),
    decreases nodes.len(),
{
    if nodes.len() > 0 {
        lemma_node_models(nodes.drop_last());
    }
}

/// Appending an event to a list of events appends its model.
pub(crate) proof fn lemma_event_models_push(events: Seq<TraceEvent>, event: TraceEvent)
    ensures
        event_models(events.push(event)) == event_models(events).push(event_model(event)),
{
    assert(events.push(event).drop_last() =~= events);
}

pub(crate) proof fn lemma_node_models_push(nodes: Seq<TraceNode>, node: TraceNode)
    ensures
        node_models(nodes.push(node)) == node_models(nodes).push(node_model(node)),
{
    assert(nodes.push(node).drop_last() =~= nodes);
}

pub(crate) proof fn lemma_child_decreases(node: TraceNode, i: int, k: int)
    requires
        0 <= i < node.events@.len(),
        node.events@[i] is Range,
        0 <= k < node.events@[i]->children@.len(),
    ensures
        decreases_to!(node => node.events@[i]->children@[k]),
{
    let event = node.events@[i];
    let children = event->children;
    assert(decreases_to!(node => node.events));
    assert(decreases_to!(node.events => node.events@[i]));
    assert(decreases_to!(event => children));
    assert(decreases_to!(children => children@[k]));
}

impl TraceNode {
    /// Append the node's bytes.
    pub fn flatten_into(&self, out: &mut Vec<u8>)
        ensures
            final(out)@ == old(out)@ + node_bytes(node_model(*self)),
        decreases *self,
    {
        let ghost models = event_models(self.events@);
        proof {
            lemma_event_models(self.events@);
        }
        let mut i: usize = 0;
        assert(models.take(0) =~= Seq::<EventModel>::empty());
        assert(out@ =~= old(out)@ + events_bytes(models.take(0)));
        while i < self.events.len()
            invariant
                i <= self.events@.len(),
                models == event_models(self.events@),
                models.len() == self.events@.len(),
                forall|k: int|
                    0 <= k < models.len() ==> #[trigger] models[k] == event_model(self.events@[k]),
                out@ == old(out)@ + events_bytes(models.take(i as int)),
            decreases self.events@.len() - i,
        {
            let ghost before = out@;
            proof {
                assert(models.take(i + 1).drop_last() =~= models.take(i as int));
                assert(models.take(i + 1).last() == models[i as int]);
            }
            match &self.events[i] {
                TraceEvent::Draw { bytes, affinity } => {
                    out.extend_from_slice(bytes.as_slice());
                    assert(event_bytes(models[i as int]) == bytes@);
                    assert(out@ =~= before + bytes@);
                },
                TraceEvent::Range { length, children } => {
                    out.extend_from_slice(length.as_slice());
                    assert(out@ =~= before + length@);
                    let ghost items = node_models(children@);
                    proof {
                        lemma_node_models(children@);
                    }
                    let mut k: usize = 0;
                    assert(items.take(0) =~= Seq::<NodeModel>::empty());
                    assert(out@ =~= before + (length@ + nodes_bytes(items.take(0))));
                    while k < children.len()
                        invariant
                            i < self.events@.len(),
                            self.events@[i as int] == (TraceEvent::Range {
                                length: *length,
                                children: *children,
                            }),
                            k <= children@.len(),
                            items == node_models(children@),
                            items.len() == children@.len(),
                            forall|j: int|
                                0 <= j < items.len() ==> #[trigger] items[j] == node_model(
                                    children@[j],
                                ),
                            out@ == before + (length@ + nodes_bytes(items.take(k as int))),
                        decreases children@.len() - k,
                    {
                        proof {
                            assert(items.take(k + 1).drop_last() =~= items.take(k as int));
                            assert(items.take(k + 1).last() == items[k as int]);
                            lemma_child_decreases(*self, i as int, k as int);
                        }
                        children[k].flatten_into(out);
                        k += 1;
                        assert(out@ =~= before + (length@ + nodes_bytes(items.take(k as int))));
                    }
                    assert(items.take(items.len() as int) =~= items);
                    assert(event_bytes(models[i as int]) == length@ + nodes_bytes(items));
                },
            }
            assert(out@ =~= before + event_bytes(models[i as int]));
            i += 1;
            assert(out@ =~= old(out)@ + events_bytes(models.take(i as int)));
        }
        assert(models.take(models.len() as int) =~= models);
    }
}

impl Clone for TraceNode {
    fn clone(&self) -> (copy: TraceNode)
        ensures
            node_model(copy) == node_model(*self),
        decreases *self,
    {
        let mut events: Vec<TraceEvent> = Vec::with_capacity(self.events.len());
        proof {
            lemma_event_models(self.events@);
        }
        let ghost models = event_models(self.events@);
        let mut i: usize = 0;
        assert(event_models(events@) =~= models.take(0));
        while i < self.events.len()
            invariant
                i <= self.events@.len(),
                models == event_models(self.events@),
                models.len() == self.events@.len(),
                forall|k: int|
                    0 <= k < models.len() ==> #[trigger] models[k] == event_model(self.events@[k]),
                event_models(events@) == models.take(i as int),
            decreases self.events@.len() - i,
        {
            let event = match &self.events[i] {
                TraceEvent::Draw { bytes, affinity } => TraceEvent::Draw {
                    bytes: copy_bytes(bytes),
                    affinity: *affinity,
                },
                TraceEvent::Range { length, children } => {
                    let mut nodes: Vec<TraceNode> = Vec::with_capacity(children.len());
                    proof {
                        lemma_node_models(children@);
                    }
                    let ghost items = node_models(children@);
                    let mut k: usize = 0;
                    assert(node_models(nodes@) =~= items.take(0));
                    while k < children.len()
                        invariant
                            i < self.events@.len(),
                            self.events@[i as int] == (TraceEvent::Range {
                                length: *length,
                                children: *children,
                            }),
                            k <= children@.len(),
                            items == node_models(children@),
                            items.len() == children@.len(),
                            forall|j: int|
                                0 <= j < items.len() ==> #[trigger] items[j] == node_model(
                                    children@[j],
                                ),
                            node_models(nodes@) == items.take(k as int),
                        decreases children@.len() - k,
                    {
                        proof {
                            lemma_child_decreases(*self, i as int, k as int);
                        }
                        let node = children[k].clone();
                        proof {
                            lemma_node_models_push(nodes@, node);
                        }
                        nodes.push(node);
                        k += 1;
                        assert(node_models(nodes@) =~= items.take(k as int));
                    }
                    assert(items.take(items.len() as int) =~= items);
                    TraceEvent::Range { length: copy_bytes(length), children: nodes }
                },
            };
            assert(event_model(event) == models[i as int]);
            proof {
                lemma_event_models_push(events@, event);
            }
            events.push(event);
            i += 1;
            assert(event_models(events@) =~= models.take(i as int));
        }
        assert(models.take(models.len() as int) =~= models);
        TraceNode { events }
    }
}

impl Clone for Trace {
    fn clone(&self) -> (copy: Trace)
        ensures
            copy@ == self@,
    {
        let flat = match &self.flat {
            Some(bytes) => Some(copy_bytes(bytes)),
            None => None,
        };
        Trace { seed: self.seed, root: self.root.clone(), flat, zero_tail: self.zero_tail }
    }
}

impl Trace {
    /// The case with no path: every byte comes from `seed`.
    pub fn empty(seed: u64) -> (case: Trace)
        ensures
            case@ == (TraceModel {
                seed,
                root: NodeModel { events: Seq::empty() },
                flat: None,
                zero_tail: false,
            }),
            case@.bytes() == Seq::<u8>::empty(),
    {
        Trace { seed, root: TraceNode { events: Vec::new() }, flat: None, zero_tail: false }
    }

    /// The case whose path is `prefix`, without structure.
    pub fn from_flat_prefix(seed: u64, prefix: Vec<u8>) -> (case: Trace)
        ensures
            case@ == (TraceModel {
                seed,
                root: NodeModel { events: Seq::empty() },
                flat: Some(prefix@),
                zero_tail: false,
            }),
            case@.bytes() == prefix@,
    {
        Trace { seed, root: TraceNode { events: Vec::new() }, flat: Some(prefix), zero_tail: false }
    }

    /// The case whose path is `prefix`, and which goes on with zeros if `zero_tail` says so.
    pub fn from_raw_parts(seed: u64, prefix: Vec<u8>, zero_tail: bool) -> (case: Trace)
        ensures
            case@ == (TraceModel {
                seed,
                root: NodeModel { events: Seq::empty() },
                flat: Some(prefix@),
                zero_tail,
            }),
            case@.bytes() == prefix@,
    {
        Trace { seed, root: TraceNode { events: Vec::new() }, flat: Some(prefix), zero_tail }
    }

    /// The byte path of the case.
    pub fn flatten_prefix(&self) -> (bytes: Vec<u8>)
        ensures
            bytes@ == self@.bytes(),
    {
        match &self.flat {
            Some(bytes) => copy_bytes(bytes),
            None => {
                let mut bytes: Vec<u8> = Vec::new();
                self.root.flatten_into(&mut bytes);
                assert(bytes@ =~= node_bytes(node_model(self.root)));
                bytes
            },
        }
    }
}

/// The bytes of events in a row are the bytes of the first ones, then those of the others.
pub proof fn events_lie_one_behind_the_other(first: Seq<EventModel>, then: Seq<EventModel>)
    ensures
        events_bytes(first + then) == events_bytes(first) + events_bytes(then),
    decreases then.len(),
{
    if then.len() == 0 {
        assert(first + then =~= first);
        assert(events_bytes(first) + events_bytes(then) =~= events_bytes(first));
    } else {
        events_lie_one_behind_the_other(first, then.drop_last());
        assert((first + then).drop_last() =~= first + then.drop_last());
        assert(events_bytes(first + then) =~= events_bytes(first) + events_bytes(then));
    }
}

/// The bytes of a range are those of its length and then those of its items, in order; an item
/// more adds its bytes at the end.
pub proof fn ranges_hold_their_items(length: Seq<u8>, children: Seq<NodeModel>, item: NodeModel)
    ensures
        event_bytes(EventModel::Range { length, children: Seq::empty() }) == length,
        event_bytes(EventModel::Range { length, children: children.push(item) }) == event_bytes(
            EventModel::Range { length, children },
        ) + events_bytes(item.events),
{
    assert(nodes_bytes(Seq::<NodeModel>::empty()) =~= Seq::empty());
    assert(length + Seq::<u8>::empty() =~= length);
    assert(children.push(item).drop_last() =~= children);
    assert(length + (nodes_bytes(children) + node_bytes(item)) =~= length + nodes_bytes(children)
        + node_bytes(item));
}

} // verus!
