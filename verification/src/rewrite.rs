//! Rewrites of a case's tree: the items of one range are deleted or projected, and its length
//! is set to what is left.

use crate::mutation::{
    kept_bytes, le_bytes, le_word, lemma_le_bytes, mutated, spliced, ByteMutation, KeptItem,
    MutationModel,
};
use crate::trace::{
    event_bytes, event_model, event_models, events_bytes, lemma_child_decreases,
    lemma_event_models, lemma_node_models, lemma_node_models_push, node_bytes, node_model,
    node_models, nodes_bytes,
    EventModel, ItemSpan, NodeModel, Trace, TraceEvent, TraceModel, TraceNode,
};
use vstd::prelude::*;

verus! {

/// `value`, or the largest index where it is larger.
pub open spec fn sat(value: int) -> int {
    if value > usize::MAX {
        usize::MAX as int
    } else {
        value
    }
}

/// The bytes of item `k`, where the first item starts at `cursor`.
pub open spec fn child_span(children: Seq<NodeModel>, cursor: int, k: int) -> ItemSpan {
    ItemSpan {
        start: sat(cursor + nodes_bytes(children.take(k)).len()) as usize,
        end: sat(cursor + nodes_bytes(children.take(k + 1)).len()) as usize,
    }
}

/// The bytes of each item, where the first item starts at `cursor`.
pub open spec fn child_spans_spec(children: Seq<NodeModel>, cursor: int) -> Seq<ItemSpan> {
    Seq::new(children.len(), |k: int| child_span(children, cursor, k))
}

/// From the start of the first span that holds a byte to the end of the last one.
pub open spec fn extent(spans: Seq<ItemSpan>) -> Option<ItemSpan>
    decreases spans.len(),
{
    if spans.len() == 0 {
        None
    } else {
        let last = spans.last();
        let rest = extent(spans.drop_last());
        if last.start >= last.end {
            rest
        } else {
            match rest {
                Some(first) => Some(ItemSpan { start: first.start, end: last.end }),
                None => Some(last),
            }
        }
    }
}

/// The end of a kept item.
pub open spec fn kept_end(item: KeptItem) -> int {
    sat(item.start + item.len)
}

/// First span from `from` on that is `start..end`.
pub open spec fn find_span(spans: Seq<ItemSpan>, start: int, end: int, from: int) -> Option<int>
    decreases spans.len() - from,
{
    if from < 0 || from >= spans.len() {
        None
    } else if spans[from].start == start && spans[from].end == end {
        Some(from)
    } else {
        find_span(spans, start, end, from + 1)
    }
}

/// The children that stand at the kept items, or `None` where one stands at none.
pub open spec fn projected(
    children: Seq<NodeModel>,
    spans: Seq<ItemSpan>,
    items: Seq<KeptItem>,
) -> Option<Seq<NodeModel>>
    decreases items.len(),
{
    if items.len() == 0 {
        Some(Seq::empty())
    } else {
        let last = items.last();
        match (
            projected(children, spans, items.drop_last()),
            find_span(spans, last.start as int, kept_end(last), 0),
        ) {
            (Some(nodes), Some(index)) => Some(nodes.push(children[index])),
            _ => None,
        }
    }
}

/// The item holds bytes, all of them in `start..end`.
pub open spec fn inside(span: ItemSpan, start: int, end: int) -> bool {
    start <= span.start < span.end <= end
}

/// The spans of the first `n` items that lie in `start..end`.
pub open spec fn removed_spans(spans: Seq<ItemSpan>, start: int, end: int, n: nat) -> Seq<ItemSpan>
    decreases n,
{
    if n == 0 || n > spans.len() {
        Seq::empty()
    } else {
        let rest = removed_spans(spans, start, end, (n - 1) as nat);
        if inside(spans[n - 1], start, end) {
            rest.push(spans[n - 1])
        } else {
            rest
        }
    }
}

/// The first `n` items without those that lie in `start..end`.
pub open spec fn remaining(
    children: Seq<NodeModel>,
    spans: Seq<ItemSpan>,
    start: int,
    end: int,
    n: nat,
) -> Seq<NodeModel>
    decreases n,
{
    if n == 0 || n > spans.len() {
        Seq::empty()
    } else {
        let rest = remaining(children, spans, start, end, (n - 1) as nat);
        if inside(spans[n - 1], start, end) {
            rest
        } else {
            rest.push(children[n - 1])
        }
    }
}

/// What the rewrite leaves of the items of a range, or `None` where they do not fit it.
pub open spec fn rewritten_children(
    mutation: MutationModel,
    children: Seq<NodeModel>,
    cursor: int,
) -> Option<Seq<NodeModel>> {
    let spans = child_spans_spec(children, cursor);
    match mutation {
        MutationModel::DeleteSequenceItems { target_len, start, len, .. } => {
            let end = sat(start + len);
            let kept = remaining(children, spans, start as int, end, spans.len());
            if extent(removed_spans(spans, start as int, end, spans.len())) == Some(
                ItemSpan { start, end: end as usize },
            ) && kept.len() == target_len {
                Some(kept)
            } else {
                None
            }
        },
        MutationModel::ProjectSequenceItems { target_len, replace_start, replace_len, items, .. }
            => {
            if extent(spans) == Some(
                ItemSpan {
                    start: replace_start,
                    end: sat(replace_start + replace_len) as usize,
                },
            ) {
                match projected(children, spans, items) {
                    Some(nodes) => if nodes.len() == target_len {
                        Some(nodes)
                    } else {
                        None
                    },
                    None => None,
                }
            } else {
                None
            }
        },
        _ => None,
    }
}

/// Where the range that is rewritten has its length, and how many bytes that takes.
pub open spec fn rewritten_place(mutation: MutationModel) -> Option<(int, int)> {
    match mutation {
        MutationModel::DeleteSequenceItems { length_start, length_width, .. } => Some(
            (length_start as int, length_width as int),
        ),
        MutationModel::ProjectSequenceItems { length_start, length_width, .. } => Some(
            (length_start as int, length_width as int),
        ),
        _ => None,
    }
}

/// The event, which starts at `cursor`, after the rewrite.
pub open spec fn rewritten_event(
    mutation: MutationModel,
    event: EventModel,
    cursor: int,
) -> Option<EventModel>
    decreases event, 0int,
{
    match event {
        EventModel::Draw { .. } => None,
        EventModel::Range { length, children } => {
            let start = sat(cursor + length.len());
            let here = if rewritten_place(mutation) == Some((cursor, length.len() as int)) {
                rewritten_children(mutation, children, start)
            } else {
                None
            };
            match here {
                Some(nodes) => Some(
                    EventModel::Range {
                        length: le_bytes(nodes.len() as int, length.len()),
                        children: nodes,
                    },
                ),
                None => match rewritten_nodes(mutation, children, 0, start) {
                    Some(nodes) => Some(EventModel::Range { length, children: nodes }),
                    None => None,
                },
            }
        },
    }
}

/// The items from `k` on, the first of which starts at `cursor`, with the first one rewritten
/// that can be.
pub open spec fn rewritten_nodes(
    mutation: MutationModel,
    nodes: Seq<NodeModel>,
    k: int,
    cursor: int,
) -> Option<Seq<NodeModel>>
    decreases nodes, nodes.len() - k,
{
    if k < 0 || k >= nodes.len() {
        None
    } else {
        match rewritten_node(mutation, nodes[k], cursor) {
            Some(node) => Some(nodes.update(k, node)),
            None => rewritten_nodes(
                mutation,
                nodes,
                k + 1,
                sat(cursor + node_bytes(nodes[k]).len()),
            ),
        }
    }
}

/// The node, which starts at `cursor`, after the rewrite.
pub open spec fn rewritten_node(
    mutation: MutationModel,
    node: NodeModel,
    cursor: int,
) -> Option<NodeModel>
    decreases node, 0int,
{
    match rewritten_events(mutation, node.events, 0, cursor) {
        Some(events) => Some(NodeModel { events }),
        None => None,
    }
}

/// The events from `i` on, the first of which starts at `cursor`, with the first one rewritten
/// that can be.
pub open spec fn rewritten_events(
    mutation: MutationModel,
    events: Seq<EventModel>,
    i: int,
    cursor: int,
) -> Option<Seq<EventModel>>
    decreases events, events.len() - i,
{
    if i < 0 || i >= events.len() {
        None
    } else {
        match rewritten_event(mutation, events[i], cursor) {
            Some(event) => Some(events.update(i, event)),
            None => rewritten_events(
                mutation,
                events,
                i + 1,
                sat(cursor + event_bytes(events[i]).len()),
            ),
        }
    }
}

/// The case after the rewrite of its tree, or `None` where no range of it fits the rewrite.
pub open spec fn rewritten_trace(mutation: MutationModel, trace: TraceModel) -> Option<TraceModel> {
    match rewritten_node(mutation, trace.root, 0) {
        Some(root) => Some(TraceModel { root, flat: None, ..trace }),
        None => None,
    }
}

proof fn lemma_nodes_bytes_step(nodes: Seq<NodeModel>, k: int)
    requires
        0 <= k < nodes.len(),
    ensures
        nodes_bytes(nodes.take(k + 1)) == nodes_bytes(nodes.take(k)) + node_bytes(nodes[k]),
{
    assert(nodes.take(k + 1).drop_last() =~= nodes.take(k));
    assert(nodes.take(k + 1).last() == nodes[k]);
}

/// Bytes of the node, or the largest index where they are more.
pub fn flatten_len(node: &TraceNode) -> (len: usize)
    ensures
        len == sat(node_bytes(node_model(*node)).len() as int),
    decreases *node,
{
    let ghost models = event_models(node.events@);
    proof {
        lemma_event_models(node.events@);
        assert(models.take(0) =~= Seq::<EventModel>::empty());
    }
    let mut len: usize = 0;
    let mut i: usize = 0;
    while i < node.events.len()
        invariant
            i <= node.events@.len(),
            models == event_models(node.events@),
            models.len() == node.events@.len(),
            forall|k: int|
                0 <= k < models.len() ==> #[trigger] models[k] == event_model(node.events@[k]),
            len == sat(crate::trace::events_bytes(models.take(i as int)).len() as int),
        decreases node.events@.len() - i,
    {
        proof {
            assert(models.take(i + 1).drop_last() =~= models.take(i as int));
            assert(models.take(i + 1).last() == models[i as int]);
        }
        match &node.events[i] {
            TraceEvent::Draw { bytes, affinity } => {
                assert(event_bytes(models[i as int]) == bytes@);
                len = len.saturating_add(bytes.len());
            },
            TraceEvent::Range { length, children } => {
                let ghost base = crate::trace::events_bytes(models.take(i as int)).len() as int;
                let ghost items = node_models(children@);
                proof {
                    lemma_node_models(children@);
                    assert(items.take(0) =~= Seq::<NodeModel>::empty());
                }
                len = len.saturating_add(length.len());
                let mut k: usize = 0;
                while k < children.len()
                    invariant
                        i < node.events@.len(),
                        node.events@[i as int] == (TraceEvent::Range {
                            length: *length,
                            children: *children,
                        }),
                        k <= children@.len(),
                        items == node_models(children@),
                        items.len() == children@.len(),
                        forall|j: int|
                            0 <= j < items.len() ==> #[trigger] items[j] == node_model(
                                children@[j],
                            ),
                        base >= 0,
                        len == sat(
                            base + length@.len() + nodes_bytes(items.take(k as int)).len(),
                        ),
                    decreases children@.len() - k,
                {
                    proof {
                        lemma_child_decreases(*node, i as int, k as int);
                        lemma_nodes_bytes_step(items, k as int);
                    }
                    len = len.saturating_add(flatten_len(&children[k]));
                    k += 1;
                }
                assert(items.take(items.len() as int) =~= items);
                assert(event_bytes(models[i as int]) == length@ + nodes_bytes(items));
            },
        }
        i += 1;
    }
    assert(models.take(models.len() as int) =~= models);
    len
}

/// The bytes of each item, where the first item starts at `cursor`.
pub fn child_spans(children: &Vec<TraceNode>, cursor: usize) -> (spans: Vec<ItemSpan>)
    ensures
        spans@ == child_spans_spec(node_models(children@), cursor as int),
{
    let ghost items = node_models(children@);
    proof {
        lemma_node_models(children@);
        assert(items.take(0) =~= Seq::<NodeModel>::empty());
    }
    let mut spans: Vec<ItemSpan> = Vec::with_capacity(children.len());
    let mut start: usize = cursor;
    let mut k: usize = 0;
    while k < children.len()
        invariant
            k <= children@.len(),
            items == node_models(children@),
            items.len() == children@.len(),
            forall|j: int|
                0 <= j < items.len() ==> #[trigger] items[j] == node_model(children@[j]),
            start == sat(cursor + nodes_bytes(items.take(k as int)).len()),
            spans@.len() == k,
            forall|j: int|
                0 <= j < k ==> #[trigger] spans@[j] == child_span(items, cursor as int, j),
        decreases children@.len() - k,
    {
        proof {
            lemma_nodes_bytes_step(items, k as int);
        }
        let end: usize = start.saturating_add(flatten_len(&children[k]));
        spans.push(ItemSpan { start, end });
        start = end;
        k += 1;
    }
    assert(spans@ =~= child_spans_spec(items, cursor as int));
    spans
}

/// From the start of the first span that holds a byte to the end of the last one.
pub fn nonempty_extent(spans: &Vec<ItemSpan>) -> (whole: Option<ItemSpan>)
    ensures
        whole == extent(spans@),
{
    let mut whole: Option<ItemSpan> = None;
    let mut i: usize = 0;
    while i < spans.len()
        invariant
            i <= spans@.len(),
            whole == extent(spans@.take(i as int)),
        decreases spans@.len() - i,
    {
        proof {
            assert(spans@.take(i + 1).drop_last() =~= spans@.take(i as int));
        }
        let span = spans[i];
        if span.start < span.end {
            whole = match whole {
                Some(first) => Some(ItemSpan { start: first.start, end: span.end }),
                None => Some(span),
            };
        }
        i += 1;
    }
    assert(spans@.take(spans@.len() as int) =~= spans@);
    whole
}

fn find(spans: &Vec<ItemSpan>, start: usize, end: usize) -> (index: Option<usize>)
    ensures
        match index {
            Some(index) => index < spans@.len() && find_span(
                spans@,
                start as int,
                end as int,
                0,
            ) == Some(index as int),
            None => find_span(spans@, start as int, end as int, 0) is None,
        },
{
    let mut i: usize = 0;
    while i < spans.len()
        invariant
            i <= spans@.len(),
            find_span(spans@, start as int, end as int, 0) == find_span(
                spans@,
                start as int,
                end as int,
                i as int,
            ),
        decreases spans@.len() - i,
    {
        if spans[i].start == start && spans[i].end == end {
            return Some(i);
        }
        i += 1;
    }
    None
}

/// The children that stand at the kept items, or `None` where one stands at none.
fn project(children: &Vec<TraceNode>, spans: &Vec<ItemSpan>, items: &Vec<KeptItem>) -> (nodes:
    Option<Vec<TraceNode>>)
    requires
        spans@.len() == children@.len(),
    ensures
        match nodes {
            Some(nodes) => projected(node_models(children@), spans@, items@) == Some(
                node_models(nodes@),
            ),
            None => projected(node_models(children@), spans@, items@) is None,
        },
{
    let ghost models = node_models(children@);
    proof {
        lemma_node_models(children@);
        assert(items@.take(0) =~= Seq::<KeptItem>::empty());
    }
    let mut nodes: Vec<TraceNode> = Vec::with_capacity(items.len());
    assert(node_models(nodes@) =~= Seq::<NodeModel>::empty());
    let mut i: usize = 0;
    while i < items.len()
        invariant
            i <= items@.len(),
            spans@.len() == children@.len(),
            models == node_models(children@),
            models.len() == children@.len(),
            forall|j: int|
                0 <= j < models.len() ==> #[trigger] models[j] == node_model(children@[j]),
            projected(models, spans@, items@.take(i as int)) == Some(node_models(nodes@)),
        decreases items@.len() - i,
    {
        proof {
            assert(items@.take(i + 1).drop_last() =~= items@.take(i as int));
            assert(items@.take(i + 1).last() == items@[i as int]);
        }
        let item = items[i];
        match find(spans, item.start, item.start.saturating_add(item.len)) {
            Some(index) => {
                let node = children[index].clone();
                proof {
                    lemma_node_models_push(nodes@, node);
                }
                nodes.push(node);
            },
            None => {
                proof {
                    lemma_projected_fails(models, spans@, items@, i + 1);
                }
                return None;
            },
        }
        i += 1;
    }
    assert(items@.take(items@.len() as int) =~= items@);
    Some(nodes)
}

/// Where some of the first items cannot be placed, no longer list can.
proof fn lemma_projected_fails(
    children: Seq<NodeModel>,
    spans: Seq<ItemSpan>,
    items: Seq<KeptItem>,
    n: int,
)
    requires
        0 <= n <= items.len(),
        projected(children, spans, items.take(n)) is None,
    ensures
        projected(children, spans, items) is None,
    decreases items.len() - n,
{
    if n == items.len() {
        assert(items.take(n) =~= items);
    } else {
        assert(items.take(n + 1).drop_last() =~= items.take(n));
        lemma_projected_fails(children, spans, items, n + 1);
    }
}

/// The items without those that lie in `start..start + len`, where those fill it and `target_len`
/// are left.
fn delete(
    children: &Vec<TraceNode>,
    spans: &Vec<ItemSpan>,
    target_len: usize,
    start: usize,
    end: usize,
) -> (nodes: Option<Vec<TraceNode>>)
    requires
        spans@.len() == children@.len(),
    ensures
        match nodes {
            Some(nodes) => {
                &&& extent(removed_spans(spans@, start as int, end as int, spans@.len())) == Some(
                    ItemSpan { start, end },
                )
                &&& node_models(nodes@) == remaining(
                    node_models(children@),
                    spans@,
                    start as int,
                    end as int,
                    spans@.len(),
                )
                &&& node_models(nodes@).len() == target_len
            },
            None => {
                ||| extent(removed_spans(spans@, start as int, end as int, spans@.len())) != Some(
                    ItemSpan { start, end },
                )
                ||| remaining(
                    node_models(children@),
                    spans@,
                    start as int,
                    end as int,
                    spans@.len(),
                ).len() != target_len
            },
        },
{
    let ghost models = node_models(children@);
    proof {
        lemma_node_models(children@);
    }
    let mut kept: Vec<TraceNode> = Vec::new();
    let mut removed: Vec<ItemSpan> = Vec::new();
    assert(node_models(kept@) =~= Seq::<NodeModel>::empty());
    let mut i: usize = 0;
    while i < children.len()
        invariant
            i <= children@.len(),
            spans@.len() == children@.len(),
            models == node_models(children@),
            models.len() == children@.len(),
            forall|j: int|
                0 <= j < models.len() ==> #[trigger] models[j] == node_model(children@[j]),
            removed@ == removed_spans(spans@, start as int, end as int, i as nat),
            node_models(kept@) == remaining(models, spans@, start as int, end as int, i as nat),
        decreases children@.len() - i,
    {
        let span = spans[i];
        if start <= span.start && span.start < span.end && span.end <= end {
            removed.push(span);
        } else {
            let node = children[i].clone();
            proof {
                lemma_node_models_push(kept@, node);
            }
            kept.push(node);
        }
        i += 1;
    }
    proof {
        lemma_node_models(kept@);
    }
    let whole = nonempty_extent(&removed);
    match whole {
        Some(whole) => {
            if whole.start == start && whole.end == end && kept.len() == target_len {
                Some(kept)
            } else {
                None
            }
        },
        None => None,
    }
}

/// What the rewrite leaves of the items of a range, or `None` where they do not fit it.
fn rewrite_children(
    mutation: &ByteMutation,
    children: &Vec<TraceNode>,
    cursor: usize,
) -> (nodes: Option<Vec<TraceNode>>)
    ensures
        match nodes {
            Some(nodes) => rewritten_children(mutation@, node_models(children@), cursor as int)
                == Some(node_models(nodes@)),
            None => rewritten_children(mutation@, node_models(children@), cursor as int) is None,
        },
{
    let spans = child_spans(children, cursor);
    proof {
        lemma_node_models(children@);
    }
    match mutation {
        ByteMutation::DeleteSequenceItems { target_len, start, len, .. } => {
            delete(children, &spans, *target_len, *start, start.saturating_add(*len))
        },
        ByteMutation::ProjectSequenceItems {
            target_len,
            replace_start,
            replace_len,
            items,
            ..
        } => {
            let end: usize = replace_start.saturating_add(*replace_len);
            match nonempty_extent(&spans) {
                Some(whole) => {
                    if whole.start != *replace_start || whole.end != end {
                        return None;
                    }
                },
                None => {
                    return None;
                },
            }
            match project(children, &spans, items) {
                Some(nodes) => {
                    proof {
                        lemma_node_models(nodes@);
                    }
                    if nodes.len() == *target_len {
                        Some(nodes)
                    } else {
                        None
                    }
                },
                None => None,
            }
        },
        _ => None,
    }
}

/// Where the range that is rewritten has its length, and how many bytes that takes.
fn place(mutation: &ByteMutation) -> (place: Option<(usize, usize)>)
    ensures
        match place {
            Some((start, width)) => rewritten_place(mutation@) == Some(
                (start as int, width as int),
            ),
            None => rewritten_place(mutation@) is None,
        },
{
    match mutation {
        ByteMutation::DeleteSequenceItems { length_start, length_width, .. } => Some(
            (*length_start, *length_width),
        ),
        ByteMutation::ProjectSequenceItems { length_start, length_width, .. } => Some(
            (*length_start, *length_width),
        ),
        _ => None,
    }
}

/// The node, which starts at `cursor`, after the rewrite; and where the node ends, if it was not
/// rewritten.
fn rewrite_node(mutation: &ByteMutation, node: &TraceNode, cursor: usize) -> (outcome: (
    Option<TraceNode>,
    usize,
))
    ensures
        match outcome.0 {
            Some(rewritten) => rewritten_node(mutation@, node_model(*node), cursor as int) == Some(
                node_model(rewritten),
            ),
            None => {
                &&& rewritten_node(mutation@, node_model(*node), cursor as int) is None
                &&& outcome.1 == sat(cursor + node_bytes(node_model(*node)).len())
            },
        },
    decreases *node,
{
    let ghost models = event_models(node.events@);
    proof {
        lemma_event_models(node.events@);
        assert(models.take(0) =~= Seq::<EventModel>::empty());
    }
    let place = place(mutation);
    let mut at: usize = cursor;
    let mut i: usize = 0;
    while i < node.events.len()
        invariant
            i <= node.events@.len(),
            models == event_models(node.events@),
            models.len() == node.events@.len(),
            forall|k: int|
                0 <= k < models.len() ==> #[trigger] models[k] == event_model(node.events@[k]),
            match place {
                Some((start, width)) => rewritten_place(mutation@) == Some(
                    (start as int, width as int),
                ),
                None => rewritten_place(mutation@) is None,
            },
            at == sat(cursor + crate::trace::events_bytes(models.take(i as int)).len()),
            rewritten_events(mutation@, models, 0, cursor as int) == rewritten_events(
                mutation@,
                models,
                i as int,
                at as int,
            ),
        decreases node.events@.len() - i,
    {
        let ghost start_at = at;
        proof {
            assert(models.take(i + 1).drop_last() =~= models.take(i as int));
            assert(models.take(i + 1).last() == models[i as int]);
        }
        match &node.events[i] {
            TraceEvent::Draw { bytes, affinity } => {
                assert(event_bytes(models[i as int]) == bytes@);
                at = at.saturating_add(bytes.len());
            },
            TraceEvent::Range { length, children } => {
                let ghost items = node_models(children@);
                assert(models[i as int] == (EventModel::Range { length: length@, children: items }));
                let items_at: usize = at.saturating_add(length.len());
                let mut here: Option<Vec<TraceNode>> = None;
                match place {
                    Some((start, width)) => {
                        if start == at && width == length.len() {
                            here = rewrite_children(mutation, children, items_at);
                        }
                    },
                    None => {},
                }
                match here {
                    Some(nodes) => {
                        proof {
                            lemma_node_models(nodes@);
                        }
                        let event = TraceEvent::Range {
                            length: le_word(nodes.len() as u128, length.len()),
                            children: nodes,
                        };
                        assert(rewritten_event(mutation@, models[i as int], at as int) == Some(
                            event_model(event),
                        ));
                        return (Some(with_event(node, i, event)), 0);
                    },
                    None => {},
                }
                proof {
                    lemma_node_models(children@);
                    assert(items.take(0) =~= Seq::<NodeModel>::empty());
                }
                let mut child_at: usize = items_at;
                let mut k: usize = 0;
                while k < children.len()
                    invariant
                        i < node.events@.len(),
                        node.events@[i as int] == (TraceEvent::Range {
                            length: *length,
                            children: *children,
                        }),
                        k <= children@.len(),
                        models == event_models(node.events@),
                        models[i as int] == (EventModel::Range { length: length@, children: items }),
                        items == node_models(children@),
                        items.len() == children@.len(),
                        forall|j: int|
                            0 <= j < items.len() ==> #[trigger] items[j] == node_model(
                                children@[j],
                            ),
                        items_at == sat(at + length@.len()),
                        child_at == sat(items_at + nodes_bytes(items.take(k as int)).len()),
                        rewritten_events(mutation@, models, 0, cursor as int) == rewritten_events(
                            mutation@,
                            models,
                            i as int,
                            at as int,
                        ),
                        rewritten_event(mutation@, models[i as int], at as int) == match rewritten_nodes(
                            mutation@,
                            items,
                            k as int,
                            child_at as int,
                        ) {
                            Some(nodes) => Some(
                                EventModel::Range { length: length@, children: nodes },
                            ),
                            None => None,
                        },
                    decreases children@.len() - k,
                {
                    proof {
                        lemma_child_decreases(*node, i as int, k as int);
                        lemma_nodes_bytes_step(items, k as int);
                    }
                    let (rewritten, end) = rewrite_node(mutation, &children[k], child_at);
                    match rewritten {
                        Some(child) => {
                            let event = TraceEvent::Range {
                                length: crate::trace::copy_bytes(length),
                                children: with_node(children, k, child),
                            };
                            proof {
                                lemma_event_models(node.events@);
                            }
                            return (Some(with_event(node, i, event)), 0);
                        },
                        None => {
                            child_at = end;
                        },
                    }
                    k += 1;
                }
                assert(items.take(items.len() as int) =~= items);
                assert(event_bytes(models[i as int]) == length@ + nodes_bytes(items));
                at = child_at;
            },
        }
        assert(at == sat(start_at + event_bytes(models[i as int]).len()));
        assert(rewritten_event(mutation@, models[i as int], start_at as int) is None);
        i += 1;
    }
    assert(models.take(models.len() as int) =~= models);
    (None, at)
}

/// A copy of `node` with `event` in place of event `i`.
fn with_event(node: &TraceNode, i: usize, event: TraceEvent) -> (copy: TraceNode)
    requires
        i < node.events@.len(),
    ensures
        node_model(copy) == (NodeModel {
            events: event_models(node.events@).update(i as int, event_model(event)),
        }),
{
    let mut copy = node.clone();
    proof {
        lemma_event_models(node.events@);
        lemma_event_models(copy.events@);
    }
    let ghost before = copy.events@;
    copy.events.set(i, event);
    proof {
        lemma_event_models(copy.events@);
        assert(event_models(copy.events@) =~= event_models(node.events@).update(
            i as int,
            event_model(event),
        )) by {
            assert forall|k: int| 0 <= k < copy.events@.len() implies #[trigger] event_models(
                copy.events@,
            )[k] == event_models(node.events@).update(i as int, event_model(event))[k] by {
                assert(event_models(before)[k] == event_model(before[k]));
            }
        }
    }
    copy
}

/// A copy of `nodes` with `node` in place of node `k`.
fn with_node(nodes: &Vec<TraceNode>, k: usize, node: TraceNode) -> (copy: Vec<TraceNode>)
    requires
        k < nodes@.len(),
    ensures
        node_models(copy@) == node_models(nodes@).update(k as int, node_model(node)),
{
    let mut copy: Vec<TraceNode> = Vec::with_capacity(nodes.len());
    let mut i: usize = 0;
    while i < nodes.len()
        invariant
            i <= nodes@.len(),
            copy@.len() == i,
            forall|j: int|
                0 <= j < i ==> node_model(#[trigger] copy@[j]) == node_model(nodes@[j]),
        decreases nodes@.len() - i,
    {
        copy.push(nodes[i].clone());
        i += 1;
    }
    copy.set(k, node);
    proof {
        lemma_node_models(nodes@);
        lemma_node_models(copy@);
        assert(node_models(copy@) =~= node_models(nodes@).update(k as int, node_model(node)));
    }
    copy
}

impl ByteMutation {
    /// Rewrite the tree of `trace`, and say whether one of its ranges fits the rewrite; where
    /// none does, nothing changes.
    pub fn apply_tree(&self, trace: &mut Trace) -> (applied: bool)
        ensures
            applied == (rewritten_trace(self@, old(trace)@) is Some),
            final(trace)@ == match rewritten_trace(self@, old(trace)@) {
                Some(rewritten) => rewritten,
                None => old(trace)@,
            },
    {
        let (rewritten, _end) = rewrite_node(self, &trace.root, 0);
        match rewritten {
            Some(root) => {
                trace.root = root;
                trace.flat = None;
                true
            },
            None => false,
        }
    }
}

/// Where item `k` starts, the first of which starts at `cursor`.
spec fn item_place(children: Seq<NodeModel>, cursor: int, k: int) -> int {
    cursor + nodes_bytes(children.take(k)).len()
}

/// The range that a rewrite of a sequence replaces, and what it puts there.
spec fn replaced(mutation: MutationModel, path: Seq<u8>) -> (int, int, Seq<u8>) {
    match mutation {
        MutationModel::DeleteSequenceItems { start, len, .. } => (
            start as int,
            len as int,
            Seq::empty(),
        ),
        MutationModel::ProjectSequenceItems { replace_start, replace_len, items, .. } => (
            replace_start as int,
            replace_len as int,
            kept_bytes(path, items),
        ),
        _ => (0, 0, Seq::empty()),
    }
}

/// The length that a rewrite of a sequence writes.
spec fn written_length(mutation: MutationModel) -> int {
    match mutation {
        MutationModel::DeleteSequenceItems { target_len, .. } => target_len as int,
        MutationModel::ProjectSequenceItems { target_len, .. } => target_len as int,
        _ => 0,
    }
}

/// The path after the rewrite of its bytes.
spec fn after_rewrite(mutation: MutationModel, path: Seq<u8>) -> Seq<u8> {
    let (length, width) = rewritten_place(mutation).unwrap();
    let (start, len, bytes) = replaced(mutation, path);
    spliced(
        spliced(path, length, width, le_bytes(written_length(mutation), width as nat)),
        start,
        len,
        bytes,
    )
}

/// The rewrite concerns bytes from `from` to `to` only, its length before its items.
spec fn lies_within(mutation: MutationModel, path: Seq<u8>, from: int, to: int) -> bool {
    &&& rewritten_place(mutation) matches Some((length, width)) && from <= length && 0 <= width
        && length + width <= replaced(mutation, path).0
    &&& 0 <= replaced(mutation, path).1
    &&& replaced(mutation, path).0 + replaced(mutation, path).1 <= to
}

/// How much longer the path is after the rewrite.
spec fn grown(mutation: MutationModel, path: Seq<u8>) -> int {
    replaced(mutation, path).2.len() - replaced(mutation, path).1
}

/// Before the bytes that a rewrite concerns nothing changes, and behind them everything moves.
proof fn lemma_after_rewrite(mutation: MutationModel, path: Seq<u8>, from: int, to: int)
    requires
        0 <= from <= to <= path.len(),
        lies_within(mutation, path, from, to),
    ensures
        ({
            let after = after_rewrite(mutation, path);
            let delta = grown(mutation, path);
            &&& after.len() == path.len() + delta
            &&& forall|i: int| 0 <= i < from ==> #[trigger] after[i] == path[i]
            &&& forall|i: int|
                to <= i < path.len() ==> path[i] == #[trigger] after[i + delta]
        }),
{
    let (length, width) = rewritten_place(mutation).unwrap();
    lemma_le_bytes(written_length(mutation), width as nat);
}

/// The first `b` items hold the bytes from the first one's place to the next one's.
proof fn lemma_first_items(children: Seq<NodeModel>, cursor: int, path: Seq<u8>, b: int)
    requires
        0 <= b <= children.len(),
        0 <= cursor,
        cursor + nodes_bytes(children).len() <= path.len(),
        path.subrange(cursor, cursor + nodes_bytes(children).len()) == nodes_bytes(children),
    ensures
        cursor <= item_place(children, cursor, b) <= cursor + nodes_bytes(children).len(),
        nodes_bytes(children.take(b)) == path.subrange(cursor, item_place(children, cursor, b)),
    decreases children.len() - b,
{
    if b < children.len() {
        lemma_first_items(children, cursor, path, b + 1);
        lemma_nodes_bytes_step(children, b);
        let longer = nodes_bytes(children.take(b + 1));
        let own = nodes_bytes(children.take(b));
        assert(own =~= longer.take(own.len() as int));
        assert(own =~= path.subrange(cursor, item_place(children, cursor, b)));
    } else {
        assert(children.take(b) =~= children);
    }
}

/// The places of the items ascend.
proof fn lemma_places_ascend(children: Seq<NodeModel>, cursor: int, a: int, b: int)
    requires
        0 <= a <= b <= children.len(),
    ensures
        item_place(children, cursor, a) <= item_place(children, cursor, b),
    decreases b - a,
{
    if a < b {
        lemma_nodes_bytes_step(children, a);
        lemma_places_ascend(children, cursor, a + 1, b);
    }
}

/// The places of the items ascend, and each item holds the bytes between its place and the next.
proof fn lemma_places(children: Seq<NodeModel>, cursor: int, path: Seq<u8>, a: int, b: int)
    requires
        0 <= a <= b <= children.len(),
        0 <= cursor,
        cursor + nodes_bytes(children).len() <= path.len(),
        path.subrange(cursor, cursor + nodes_bytes(children).len()) == nodes_bytes(children),
    ensures
        cursor <= item_place(children, cursor, a) <= item_place(children, cursor, b) <= cursor
            + nodes_bytes(children).len(),
        a < b ==> node_bytes(children[a]) == path.subrange(
            item_place(children, cursor, a),
            item_place(children, cursor, a + 1),
        ),
{
    lemma_first_items(children, cursor, path, a);
    lemma_first_items(children, cursor, path, b);
    lemma_places_ascend(children, cursor, a, b);
    if a < b {
        lemma_first_items(children, cursor, path, a + 1);
        lemma_nodes_bytes_step(children, a);
        let upto = nodes_bytes(children.take(a + 1));
        let before = nodes_bytes(children.take(a)).len() as int;
        assert(node_bytes(children[a]) =~= upto.skip(before));
        assert(node_bytes(children[a]) =~= path.subrange(
            item_place(children, cursor, a),
            item_place(children, cursor, a + 1),
        ));
    }
}

/// The extent of spans that are not empty starts where one of them starts, and ends where one of
/// them ends.
proof fn lemma_extent_of_removed(spans: Seq<ItemSpan>, start: int, end: int, n: nat) -> (ends: (
    int,
    int,
))
    requires
        n <= spans.len(),
        extent(removed_spans(spans, start, end, n)) is Some,
    ensures
        0 <= ends.0 < n,
        0 <= ends.1 < n,
        inside(spans[ends.0], start, end),
        inside(spans[ends.1], start, end),
        extent(removed_spans(spans, start, end, n)).unwrap().start == spans[ends.0].start,
        extent(removed_spans(spans, start, end, n)).unwrap().end == spans[ends.1].end,
    decreases n,
{
    let fewer = removed_spans(spans, start, end, (n - 1) as nat);
    let all = removed_spans(spans, start, end, n);
    if inside(spans[n - 1], start, end) {
        assert(all.drop_last() =~= fewer);
        if extent(fewer) is Some {
            let ends = lemma_extent_of_removed(spans, start, end, (n - 1) as nat);
            (ends.0, n - 1)
        } else {
            (n - 1, n - 1)
        }
    } else {
        lemma_extent_of_removed(spans, start, end, (n - 1) as nat)
    }
}

/// What is left of the first `n` items are their bytes without the range.
proof fn lemma_remaining_bytes(
    children: Seq<NodeModel>,
    cursor: int,
    path: Seq<u8>,
    start: int,
    end: int,
    first: int,
    last: int,
    n: nat,
)
    requires
        n <= children.len(),
        0 <= cursor,
        cursor + nodes_bytes(children).len() <= path.len() <= usize::MAX,
        path.subrange(cursor, cursor + nodes_bytes(children).len()) == nodes_bytes(children),
        0 <= first < children.len(),
        0 <= last < children.len(),
        item_place(children, cursor, first) == start,
        item_place(children, cursor, last + 1) == end,
        start < end,
    ensures
        ({
            let spans = child_spans_spec(children, cursor);
            let upto = item_place(children, cursor, n as int);
            nodes_bytes(remaining(children, spans, start, end, n)) == path.subrange(
                cursor,
                if upto <= start {
                    upto
                } else {
                    start
                },
            ) + path.subrange(
                end,
                if upto >= end {
                    upto
                } else {
                    end
                },
            )
        }),
    decreases n,
{
    let spans = child_spans_spec(children, cursor);
    lemma_places(children, cursor, path, first, children.len() as int);
    lemma_places(children, cursor, path, last + 1, children.len() as int);
    if n == 0 {
        assert(children.take(0) =~= Seq::empty());
        assert(nodes_bytes(Seq::<NodeModel>::empty()) =~= Seq::empty());
        assert(path.subrange(cursor, cursor) + path.subrange(end, end) =~= Seq::empty());
    } else {
        let k = n - 1;
        lemma_remaining_bytes(
            children,
            cursor,
            path,
            start,
            end,
            first,
            last,
            k as nat,
        );
        lemma_places(children, cursor, path, k, n as int);
        lemma_places(children, cursor, path, n as int, children.len() as int);
        if k < first {
            lemma_places(children, cursor, path, n as int, first);
        } else if k > last {
            lemma_places(children, cursor, path, last + 1, k);
        } else {
            lemma_places(children, cursor, path, first, k);
            lemma_places(children, cursor, path, n as int, last + 1);
        }
        let a = item_place(children, cursor, k);
        let b = item_place(children, cursor, n as int);
        assert(spans[k].start == a);
        assert(spans[k].end == b);
        let rest = remaining(children, spans, start, end, k as nat);
        let all = remaining(children, spans, start, end, n);
        let own = node_bytes(children[k]);
        if inside(spans[k], start, end) {
            assert(all == rest);
        } else {
            assert(all.drop_last() =~= rest);
            assert(nodes_bytes(all) == nodes_bytes(rest) + own);
        }
        let low = if b <= start {
            b
        } else {
            start
        };
        let high = if b >= end {
            b
        } else {
            end
        };
        assert(nodes_bytes(all) =~= path.subrange(cursor, low) + path.subrange(end, high));
    }
}

/// The kept items' bytes are those of the items that stand there.
proof fn lemma_projected_bytes(
    children: Seq<NodeModel>,
    cursor: int,
    path: Seq<u8>,
    items: Seq<KeptItem>,
)
    requires
        0 <= cursor,
        cursor + nodes_bytes(children).len() <= path.len() <= usize::MAX,
        path.subrange(cursor, cursor + nodes_bytes(children).len()) == nodes_bytes(children),
        forall|i: int|
            0 <= i < items.len() ==> (#[trigger] items[i]).start + items[i].len <= path.len(),
        projected(children, child_spans_spec(children, cursor), items) is Some,
    ensures
        nodes_bytes(projected(children, child_spans_spec(children, cursor), items).unwrap())
            == kept_bytes(path, items),
    decreases items.len(),
{
    if items.len() == 0 {
        assert(nodes_bytes(Seq::<NodeModel>::empty()) =~= Seq::empty());
    } else {
        let spans = child_spans_spec(children, cursor);
        let last = items.last();
        assert forall|i: int| 0 <= i < items.drop_last().len() implies (
        #[trigger] items.drop_last()[i]).start + items.drop_last()[i].len <= path.len() by {
            assert(items.drop_last()[i] == items[i]);
        }
        lemma_projected_bytes(children, cursor, path, items.drop_last());
        lemma_found(spans, last.start as int, kept_end(last), 0);
        let index = find_span(spans, last.start as int, kept_end(last), 0).unwrap();
        lemma_places(children, cursor, path, index, index + 1);
        lemma_places(children, cursor, path, index + 1, children.len() as int);
        assert(items[items.len() - 1] == last);
        let nodes = projected(children, spans, items.drop_last()).unwrap();
        assert(nodes.push(children[index]).drop_last() =~= nodes);
    }
}

proof fn lemma_found(spans: Seq<ItemSpan>, start: int, end: int, from: int)
    ensures
        find_span(spans, start, end, from) matches Some(i) ==> 0 <= i < spans.len()
            && spans[i].start == start && spans[i].end == end,
    decreases spans.len() - from,
{
    if 0 <= from < spans.len() {
        lemma_found(spans, start, end, from + 1);
    }
}

/// The extent of the items reaches over all of their bytes.
proof fn lemma_extent_is_all(
    children: Seq<NodeModel>,
    cursor: int,
    path: Seq<u8>,
    n: nat,
)
    requires
        n <= children.len(),
        0 <= cursor,
        cursor + nodes_bytes(children).len() <= path.len() <= usize::MAX,
        path.subrange(cursor, cursor + nodes_bytes(children).len()) == nodes_bytes(children),
    ensures
        match extent(child_spans_spec(children, cursor).take(n as int)) {
            Some(span) => span.start == cursor && span.end == item_place(children, cursor, n as int),
            None => item_place(children, cursor, n as int) == cursor,
        },
    decreases n,
{
    let spans = child_spans_spec(children, cursor);
    if n == 0 {
        assert(children.take(0) =~= Seq::empty());
        assert(nodes_bytes(Seq::<NodeModel>::empty()) =~= Seq::empty());
    } else {
        lemma_extent_is_all(children, cursor, path, (n - 1) as nat);
        lemma_places(children, cursor, path, n - 1, n as int);
        lemma_places(children, cursor, path, n as int, children.len() as int);
        assert(spans.take(n as int).drop_last() =~= spans.take(n - 1));
        assert(spans.take(n as int).last() == spans[n - 1]);
    }
}

/// Items that were deleted leave the bytes before and behind them.
proof fn lemma_deleted_children(
    mutation: MutationModel,
    children: Seq<NodeModel>,
    cursor: int,
    path: Seq<u8>,
    start: usize,
    len: usize,
)
    requires
        path.len() <= usize::MAX,
        0 <= cursor,
        mutation matches MutationModel::DeleteSequenceItems { start: s, len: l, .. } && s == start
            && l == len,
        start + len <= path.len(),
        cursor + nodes_bytes(children).len() <= path.len(),
        path.subrange(cursor, cursor + nodes_bytes(children).len()) == nodes_bytes(children),
        rewritten_children(mutation, children, cursor) is Some,
    ensures
        ({
            let to = cursor + nodes_bytes(children).len();
            let nodes = rewritten_children(mutation, children, cursor).unwrap();
            &&& nodes.len() == written_length(mutation)
            &&& cursor <= start
            &&& start + len <= to
            &&& nodes_bytes(nodes) == path.subrange(cursor, start as int) + path.subrange(
                start + len,
                to,
            )
        }),
{
    let spans = child_spans_spec(children, cursor);
    let n = children.len();
    let to = cursor + nodes_bytes(children).len();
    let nodes = rewritten_children(mutation, children, cursor).unwrap();
    assert(children.take(n as int) =~= children);
    let end = start + len;
    let ends = lemma_extent_of_removed(spans, start as int, end, n);
    lemma_places(children, cursor, path, ends.0, n as int);
    lemma_places(children, cursor, path, ends.1 + 1, n as int);
    assert(spans[ends.0].start == item_place(children, cursor, ends.0));
    assert(spans[ends.1].end == item_place(children, cursor, ends.1 + 1));
    lemma_remaining_bytes(children, cursor, path, start as int, end, ends.0, ends.1, n);
}

/// Items that were projected hold the kept bytes.
proof fn lemma_projected_children(
    mutation: MutationModel,
    children: Seq<NodeModel>,
    cursor: int,
    path: Seq<u8>,
    replace_start: usize,
    replace_len: usize,
    items: Seq<KeptItem>,
)
    requires
        path.len() <= usize::MAX,
        0 <= cursor,
        mutation matches MutationModel::ProjectSequenceItems {
            replace_start: s,
            replace_len: l,
            items: i,
            ..
        } && s == replace_start && l == replace_len && i == items,
        replace_start + replace_len <= path.len(),
        crate::mutation::items_fit(items, path.len() as int),
        cursor + nodes_bytes(children).len() <= path.len(),
        path.subrange(cursor, cursor + nodes_bytes(children).len()) == nodes_bytes(children),
        rewritten_children(mutation, children, cursor) is Some,
    ensures
        ({
            let nodes = rewritten_children(mutation, children, cursor).unwrap();
            &&& nodes.len() == written_length(mutation)
            &&& cursor == replace_start
            &&& replace_start + replace_len == cursor + nodes_bytes(children).len()
            &&& nodes_bytes(nodes) == kept_bytes(path, items)
        }),
{
    let spans = child_spans_spec(children, cursor);
    let n = children.len();
    assert(children.take(n as int) =~= children);
    assert(spans.take(n as int) =~= spans);
    lemma_extent_is_all(children, cursor, path, n);
    assert forall|i: int| 0 <= i < items.len() implies (#[trigger] items[i]).start + items[i].len
        <= path.len() by {
        assert(crate::mutation::within(
            items[i].start as int,
            items[i].len as int,
            path.len() as int,
        ));
    }
    lemma_projected_bytes(children, cursor, path, items);
}

/// The items of a range, rewritten, hold the bytes of the rewritten path.
proof fn lemma_rewritten_children(
    mutation: MutationModel,
    children: Seq<NodeModel>,
    cursor: int,
    path: Seq<u8>,
)
    requires
        path.len() <= usize::MAX,
        mutated(mutation, path, Seq::empty()) is Some,
        rewritten_place(mutation) matches Some((length, width)) && 0 <= length && length + width
            == cursor,
        cursor + nodes_bytes(children).len() <= path.len(),
        path.subrange(cursor, cursor + nodes_bytes(children).len()) == nodes_bytes(children),
        rewritten_children(mutation, children, cursor) is Some,
    ensures
        ({
            let to = cursor + nodes_bytes(children).len();
            let nodes = rewritten_children(mutation, children, cursor).unwrap();
            let (length, width) = rewritten_place(mutation).unwrap();
            &&& nodes.len() == written_length(mutation)
            &&& lies_within(mutation, path, length, to)
            &&& nodes_bytes(nodes) == after_rewrite(mutation, path).subrange(
                cursor,
                to + grown(mutation, path),
            )
        }),
{
    let to = cursor + nodes_bytes(children).len();
    let nodes = rewritten_children(mutation, children, cursor).unwrap();
    let (length, width) = rewritten_place(mutation).unwrap();
    match mutation {
        MutationModel::DeleteSequenceItems { start, len, .. } => {
            lemma_deleted_children(mutation, children, cursor, path, start, len);
        },
        MutationModel::ProjectSequenceItems { replace_start, replace_len, items, .. } => {
            lemma_projected_children(
                mutation,
                children,
                cursor,
                path,
                replace_start,
                replace_len,
                items,
            );
        },
        _ => {},
    }
    let (start, len, bytes) = replaced(mutation, path);
    lemma_spliced_middle(
        path,
        length,
        width,
        le_bytes(written_length(mutation), width as nat),
        start,
        len,
        bytes,
        to,
    );
    lemma_le_bytes(written_length(mutation), width as nat);
    assert(nodes_bytes(nodes) =~= path.subrange(cursor, start) + bytes + path.subrange(
        start + len,
        to,
    ));
}

/// Between a length that was written and the end, a path with a range replaced holds what stood
/// before the range, what replaces it, and what stood behind it.
proof fn lemma_spliced_middle(
    path: Seq<u8>,
    length: int,
    width: int,
    word: Seq<u8>,
    start: int,
    len: int,
    bytes: Seq<u8>,
    to: int,
)
    requires
        0 <= length,
        0 <= width,
        length + width <= start,
        0 <= len,
        start + len <= to <= path.len(),
    ensures
        word.len() == width ==> spliced(
            spliced(path, length, width, word),
            start,
            len,
            bytes,
        ).subrange(length + width, to - len + bytes.len()) == path.subrange(length + width, start)
            + bytes + path.subrange(start + len, to),
{
    if word.len() == width {
        let after = spliced(spliced(path, length, width, word), start, len, bytes);
        assert(after.subrange(length + width, to - len + bytes.len()) =~= path.subrange(
            length + width,
            start,
        ) + bytes + path.subrange(start + len, to));
    }
}

/// What stands before and behind the part that a rewrite concerns is not changed by it.
proof fn lemma_rewritten_part(
    mutation: MutationModel,
    path: Seq<u8>,
    from: int,
    inner: int,
    outer: int,
    to: int,
    part: Seq<u8>,
)
    requires
        0 <= from <= inner <= outer <= to <= path.len(),
        lies_within(mutation, path, inner, outer),
        part == after_rewrite(mutation, path).subrange(inner, outer + grown(mutation, path)),
    ensures
        lies_within(mutation, path, from, to),
        path.subrange(from, inner) + part + path.subrange(outer, to) == after_rewrite(
            mutation,
            path,
        ).subrange(from, to + grown(mutation, path)),
{
    lemma_after_rewrite(mutation, path, inner, outer);
    let after = after_rewrite(mutation, path);
    let delta = grown(mutation, path);
    assert(outer + delta >= inner);
    let whole = path.subrange(from, inner) + part + path.subrange(outer, to);
    assert forall|i: int| 0 <= i < whole.len() implies #[trigger] whole[i] == after.subrange(
        from,
        to + delta,
    )[i] by {
        if i >= outer + delta - from {
            let at = i + from - delta;
            assert(whole[i] == path[at]);
            assert(path[at] == after[at + delta]);
        }
    }
    assert(whole =~= after.subrange(from, to + delta));
}

/// The bytes of a list with one item changed.
proof fn lemma_nodes_updated(nodes: Seq<NodeModel>, k: int, node: NodeModel)
    requires
        0 <= k < nodes.len(),
    ensures
        nodes_bytes(nodes) == nodes_bytes(nodes.take(k)) + node_bytes(nodes[k]) + nodes_bytes(
            nodes,
        ).skip((nodes_bytes(nodes.take(k)) + node_bytes(nodes[k])).len() as int),
        nodes_bytes(nodes.update(k, node)) == nodes_bytes(nodes.take(k)) + node_bytes(node)
            + nodes_bytes(nodes).skip(
            (nodes_bytes(nodes.take(k)) + node_bytes(nodes[k])).len() as int,
        ),
    decreases nodes.len(),
{
    let head = nodes_bytes(nodes.take(k)) + node_bytes(nodes[k]);
    if k == nodes.len() - 1 {
        assert(nodes.take(k) =~= nodes.drop_last());
        assert(nodes.update(k, node).drop_last() =~= nodes.drop_last());
        assert(nodes_bytes(nodes) =~= head);
        assert(nodes_bytes(nodes).skip(head.len() as int) =~= Seq::empty());
        assert(nodes_bytes(nodes.update(k, node)) =~= nodes_bytes(nodes.take(k)) + node_bytes(node)
            + Seq::empty());
    } else {
        let fewer = nodes.drop_last();
        lemma_nodes_updated(fewer, k, node);
        assert(fewer.take(k) =~= nodes.take(k));
        assert(nodes.update(k, node).drop_last() =~= fewer.update(k, node));
        let tail = node_bytes(nodes.last());
        assert(nodes_bytes(nodes) == nodes_bytes(fewer) + tail);
        assert(nodes_bytes(nodes).skip(head.len() as int) =~= nodes_bytes(fewer).skip(
            head.len() as int,
        ) + tail);
        assert(nodes_bytes(nodes) =~= head + nodes_bytes(nodes).skip(head.len() as int));
        assert(nodes_bytes(nodes.update(k, node)) =~= nodes_bytes(nodes.take(k)) + node_bytes(node)
            + nodes_bytes(nodes).skip(head.len() as int));
    }
}

/// The bytes of a list with one event changed.
proof fn lemma_events_updated(events: Seq<EventModel>, k: int, event: EventModel)
    requires
        0 <= k < events.len(),
    ensures
        events_bytes(events) == events_bytes(events.take(k)) + event_bytes(events[k])
            + events_bytes(events).skip(
            (events_bytes(events.take(k)) + event_bytes(events[k])).len() as int,
        ),
        events_bytes(events.update(k, event)) == events_bytes(events.take(k)) + event_bytes(event)
            + events_bytes(events).skip(
            (events_bytes(events.take(k)) + event_bytes(events[k])).len() as int,
        ),
    decreases events.len(),
{
    let head = events_bytes(events.take(k)) + event_bytes(events[k]);
    if k == events.len() - 1 {
        assert(events.take(k) =~= events.drop_last());
        assert(events.update(k, event).drop_last() =~= events.drop_last());
        assert(events_bytes(events) =~= head);
        assert(events_bytes(events).skip(head.len() as int) =~= Seq::empty());
        assert(events_bytes(events.update(k, event)) =~= events_bytes(events.take(k))
            + event_bytes(event) + Seq::empty());
    } else {
        let fewer = events.drop_last();
        lemma_events_updated(fewer, k, event);
        assert(fewer.take(k) =~= events.take(k));
        assert(events.update(k, event).drop_last() =~= fewer.update(k, event));
        let tail = event_bytes(events.last());
        assert(events_bytes(events) == events_bytes(fewer) + tail);
        assert(events_bytes(events).skip(head.len() as int) =~= events_bytes(fewer).skip(
            head.len() as int,
        ) + tail);
        assert(events_bytes(events) =~= head + events_bytes(events).skip(head.len() as int));
        assert(events_bytes(events.update(k, event)) =~= events_bytes(events.take(k))
            + event_bytes(event) + events_bytes(events).skip(head.len() as int));
    }
}

/// An event, rewritten, holds the bytes of the rewritten path.
proof fn lemma_rewritten_event(
    mutation: MutationModel,
    event: EventModel,
    cursor: int,
    path: Seq<u8>,
)
    requires
        path.len() <= usize::MAX,
        mutated(mutation, path, Seq::empty()) is Some,
        0 <= cursor,
        cursor + event_bytes(event).len() <= path.len(),
        path.subrange(cursor, cursor + event_bytes(event).len()) == event_bytes(event),
        rewritten_event(mutation, event, cursor) is Some,
    ensures
        ({
            let to = cursor + event_bytes(event).len();
            &&& lies_within(mutation, path, cursor, to)
            &&& event_bytes(rewritten_event(mutation, event, cursor).unwrap()) == after_rewrite(
                mutation,
                path,
            ).subrange(cursor, to + grown(mutation, path))
        }),
    decreases event, 0int,
{
    let to = cursor + event_bytes(event).len();
    match event {
        EventModel::Draw { .. } => {},
        EventModel::Range { length, children } => {
            let start = cursor + length.len();
            assert(path.subrange(start, to) =~= nodes_bytes(children)) by {
                assert(path.subrange(start, to) =~= path.subrange(cursor, to).skip(
                    length.len() as int,
                ));
                assert((length + nodes_bytes(children)).skip(length.len() as int) =~= nodes_bytes(
                    children,
                ));
            }
            assert(path.subrange(cursor, start) =~= length) by {
                assert(path.subrange(cursor, start) =~= path.subrange(cursor, to).take(
                    length.len() as int,
                ));
                assert((length + nodes_bytes(children)).take(length.len() as int) =~= length);
            }
            let here = if rewritten_place(mutation) == Some((cursor, length.len() as int)) {
                rewritten_children(mutation, children, start)
            } else {
                None
            };
            if here is Some {
                lemma_rewritten_children(mutation, children, start, path);
                let nodes = here.unwrap();
                let after = after_rewrite(mutation, path);
                lemma_le_bytes(nodes.len() as int, length.len());
                let word = le_bytes(nodes.len() as int, length.len());
                assert(after.subrange(cursor, start) =~= word);
                assert(event_bytes(rewritten_event(mutation, event, cursor).unwrap()) == word
                    + nodes_bytes(nodes));
                assert(word + nodes_bytes(nodes) =~= after.subrange(
                    cursor,
                    to + grown(mutation, path),
                ));
            } else {
                lemma_rewritten_nodes(mutation, children, 0, start, start, path);
                let nodes = rewritten_nodes(mutation, children, 0, start).unwrap();
                lemma_rewritten_part(mutation, path, cursor, start, to, to, nodes_bytes(nodes));
                assert(length + nodes_bytes(nodes) =~= path.subrange(cursor, start) + nodes_bytes(
                    nodes,
                ) + path.subrange(to, to));
            }
        },
    }
}

/// The items from `k` on, one of them rewritten, hold the bytes of the rewritten path.
proof fn lemma_rewritten_nodes(
    mutation: MutationModel,
    nodes: Seq<NodeModel>,
    k: int,
    first: int,
    cursor: int,
    path: Seq<u8>,
)
    requires
        path.len() <= usize::MAX,
        mutated(mutation, path, Seq::empty()) is Some,
        0 <= first,
        0 <= k <= nodes.len(),
        first + nodes_bytes(nodes).len() <= path.len(),
        path.subrange(first, first + nodes_bytes(nodes).len()) == nodes_bytes(nodes),
        cursor == item_place(nodes, first, k),
        rewritten_nodes(mutation, nodes, k, cursor) is Some,
    ensures
        ({
            let to = first + nodes_bytes(nodes).len();
            &&& lies_within(mutation, path, first, to)
            &&& nodes_bytes(rewritten_nodes(mutation, nodes, k, cursor).unwrap()) == after_rewrite(
                mutation,
                path,
            ).subrange(first, to + grown(mutation, path))
        }),
    decreases nodes, nodes.len() - k,
{
    lemma_places(nodes, first, path, k, k + 1);
    lemma_places(nodes, first, path, k + 1, nodes.len() as int);
    lemma_nodes_bytes_step(nodes, k);
    let outer = item_place(nodes, first, k + 1);
    let to = first + nodes_bytes(nodes).len();
    match rewritten_node(mutation, nodes[k], cursor) {
        Some(node) => {
            lemma_rewritten_node(mutation, nodes[k], cursor, path);
            lemma_rewritten_part(
                mutation,
                path,
                first,
                cursor,
                outer,
                to,
                node_bytes(node),
            );
            lemma_nodes_updated(nodes, k, node);
            lemma_first_items(nodes, first, path, k);
            let head = nodes_bytes(nodes.take(k)) + node_bytes(nodes[k]);
            assert(nodes_bytes(nodes).skip(head.len() as int) =~= path.subrange(outer, to));
        },
        None => {
            lemma_rewritten_nodes(mutation, nodes, k + 1, first, outer, path);
        },
    }
}

/// A node, rewritten, holds the bytes of the rewritten path.
proof fn lemma_rewritten_node(
    mutation: MutationModel,
    node: NodeModel,
    cursor: int,
    path: Seq<u8>,
)
    requires
        path.len() <= usize::MAX,
        mutated(mutation, path, Seq::empty()) is Some,
        0 <= cursor,
        cursor + node_bytes(node).len() <= path.len(),
        path.subrange(cursor, cursor + node_bytes(node).len()) == node_bytes(node),
        rewritten_node(mutation, node, cursor) is Some,
    ensures
        ({
            let to = cursor + node_bytes(node).len();
            &&& lies_within(mutation, path, cursor, to)
            &&& node_bytes(rewritten_node(mutation, node, cursor).unwrap()) == after_rewrite(
                mutation,
                path,
            ).subrange(cursor, to + grown(mutation, path))
        }),
    decreases node, 0int,
{
    assert(events_bytes(node.events.take(0)) =~= Seq::empty()) by {
        assert(node.events.take(0) =~= Seq::empty());
    }
    lemma_rewritten_events(mutation, node.events, 0, cursor, cursor, path);
}

/// The events from `i` on, one of them rewritten, hold the bytes of the rewritten path.
proof fn lemma_rewritten_events(
    mutation: MutationModel,
    events: Seq<EventModel>,
    i: int,
    first: int,
    cursor: int,
    path: Seq<u8>,
)
    requires
        path.len() <= usize::MAX,
        mutated(mutation, path, Seq::empty()) is Some,
        0 <= first,
        0 <= i <= events.len(),
        first + events_bytes(events).len() <= path.len(),
        path.subrange(first, first + events_bytes(events).len()) == events_bytes(events),
        cursor == first + events_bytes(events.take(i)).len(),
        rewritten_events(mutation, events, i, cursor) is Some,
    ensures
        ({
            let to = first + events_bytes(events).len();
            &&& lies_within(mutation, path, first, to)
            &&& events_bytes(rewritten_events(mutation, events, i, cursor).unwrap())
                == after_rewrite(mutation, path).subrange(first, to + grown(mutation, path))
        }),
    decreases events, events.len() - i,
{
    lemma_events_updated(events, i, events[i]);
    let before = events_bytes(events.take(i));
    let own = event_bytes(events[i]);
    let outer = cursor + own.len();
    let to = first + events_bytes(events).len();
    let all = events_bytes(events);
    let head = before + own;
    assert(head.len() <= all.len());
    assert(path.subrange(first, cursor) =~= before) by {
        assert(path.subrange(first, cursor) =~= all.take(before.len() as int));
        assert(all.take(before.len() as int) =~= before);
    }
    assert(path.subrange(cursor, outer) =~= own) by {
        assert(path.subrange(cursor, outer) =~= all.subrange(
            before.len() as int,
            head.len() as int,
        ));
        assert(all.subrange(before.len() as int, head.len() as int) =~= own);
    }
    assert(path.subrange(outer, to) =~= all.skip(head.len() as int));
    match rewritten_event(mutation, events[i], cursor) {
        Some(event) => {
            lemma_rewritten_event(mutation, events[i], cursor, path);
            lemma_rewritten_part(
                mutation,
                path,
                first,
                cursor,
                outer,
                to,
                event_bytes(event),
            );
            lemma_events_updated(events, i, event);
        },
        None => {
            assert(events.take(i + 1).drop_last() =~= events.take(i));
            assert(events.take(i + 1).last() == events[i]);
            lemma_rewritten_events(mutation, events, i + 1, first, outer, path);
        },
    }
}

/// A rewrite of a case's tree and the same rewrite of its bytes come to the same bytes.
pub proof fn trees_and_bytes_are_rewritten_alike(
    mutation: MutationModel,
    trace: TraceModel,
    dictionary: Seq<Seq<u8>>,
)
    requires
        trace.bytes() == node_bytes(trace.root),
        trace.bytes().len() <= usize::MAX,
        rewritten_trace(mutation, trace) is Some,
        mutated(mutation, trace.bytes(), dictionary) is Some,
    ensures
        rewritten_trace(mutation, trace).unwrap().bytes() == mutated(
            mutation,
            trace.bytes(),
            dictionary,
        ).unwrap(),
        rewritten_trace(mutation, trace).unwrap().seed == trace.seed,
        rewritten_trace(mutation, trace).unwrap().zero_tail == trace.zero_tail,
{
    let path = trace.bytes();
    lemma_only_sequences(mutation, trace.root, 0);
    assert(path.subrange(0, path.len() as int) =~= path);
    lemma_rewritten_node(mutation, trace.root, 0, path);
    lemma_after_rewrite(mutation, path, 0, path.len() as int);
    let after = after_rewrite(mutation, path);
    assert(after.subrange(0, path.len() + grown(mutation, path)) =~= after);
}

/// Only a rewrite of a sequence rewrites a tree.
proof fn lemma_only_sequences(mutation: MutationModel, node: NodeModel, cursor: int)
    ensures
        rewritten_node(mutation, node, cursor) is Some ==> mutation is DeleteSequenceItems
            || mutation is ProjectSequenceItems,
    decreases node, 0int,
{
    lemma_only_sequences_events(mutation, node.events, 0, cursor);
}

proof fn lemma_only_sequences_events(
    mutation: MutationModel,
    events: Seq<EventModel>,
    i: int,
    cursor: int,
)
    ensures
        rewritten_events(mutation, events, i, cursor) is Some ==> mutation is DeleteSequenceItems
            || mutation is ProjectSequenceItems,
    decreases events, events.len() - i,
{
    if 0 <= i < events.len() {
        lemma_only_sequences_event(mutation, events[i], cursor);
        lemma_only_sequences_events(
            mutation,
            events,
            i + 1,
            sat(cursor + event_bytes(events[i]).len()),
        );
    }
}

proof fn lemma_only_sequences_event(mutation: MutationModel, event: EventModel, cursor: int)
    ensures
        rewritten_event(mutation, event, cursor) is Some ==> mutation is DeleteSequenceItems
            || mutation is ProjectSequenceItems,
    decreases event, 0int,
{
    if let EventModel::Range { length, children } = event {
        lemma_only_sequences_nodes(mutation, children, 0, sat(cursor + length.len()));
    }
}

proof fn lemma_only_sequences_nodes(
    mutation: MutationModel,
    nodes: Seq<NodeModel>,
    k: int,
    cursor: int,
)
    ensures
        rewritten_nodes(mutation, nodes, k, cursor) is Some ==> mutation is DeleteSequenceItems
            || mutation is ProjectSequenceItems,
    decreases nodes, nodes.len() - k,
{
    if 0 <= k < nodes.len() {
        lemma_only_sequences(mutation, nodes[k], cursor);
        lemma_only_sequences_nodes(
            mutation,
            nodes,
            k + 1,
            sat(cursor + node_bytes(nodes[k]).len()),
        );
    }
}

} // verus!
