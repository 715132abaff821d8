//! What readers are given: the forest with its roots in the order of their
//! names, whether the forest is ready to be served, and what to send to a
//! subscriber of the stream of forests.

use crate::node::{HierarchyNode, NodeView};
use vstd::prelude::*;
use vstd::string::*;

verus! {

// ---------------------------------------------------------------------------
// The order of names

/// Whether the bytes of `a` from position `i` on come no later than those of
/// `b` from `i` on, byte by byte; a text that ends first comes first.
pub open spec fn bytes_le_from(a: Seq<u8>, b: Seq<u8>, i: int) -> bool
    decreases a.len() - i,
{
    if i < 0 || i >= a.len() {
        true
    } else if i >= b.len() {
        false
    } else if a[i] != b[i] {
        a[i] < b[i]
    } else {
        bytes_le_from(a, b, i + 1)
    }
}

/// Whether the name `a` comes no later than the name `b`: the order of
/// strings, which goes by their bytes.
pub open spec fn name_le(a: Seq<char>, b: Seq<char>) -> bool {
    bytes_le_from(vstd::utf8::encode_utf8(a), vstd::utf8::encode_utf8(b), 0)
}

/// Whether the name `a` comes no later than the name `b`.
pub fn name_comes_first(a: &str, b: &str) -> (r: bool)
    ensures
        r == name_le(a@, b@),
{
    let x = a.as_bytes();
    let y = b.as_bytes();
    let mut i: usize = 0;
    while i < x.len()
        invariant
            i <= x@.len(),
            x@ == a.spec_bytes(),
            y@ == b.spec_bytes(),
            bytes_le_from(x@, y@, 0) == bytes_le_from(x@, y@, i as int),
        decreases x.len() - i,
    {
        if i >= y.len() {
            return false;
        }
        if x[i] != y[i] {
            return x[i] < y[i];
        }
        i += 1;
    }
    true
}

// ---------------------------------------------------------------------------
// The forest in the order of names

/// A list in the order of names with one more node put in: behind every
/// node whose name comes no later than its own.
pub open spec fn insert_by_name(sorted: Seq<NodeView>, node: NodeView) -> Seq<NodeView>
    decreases sorted.len(),
{
    if sorted.len() == 0 {
        seq![node]
    } else if name_le(sorted.last().name, node.name) {
        sorted.push(node)
    } else {
        insert_by_name(sorted.drop_last(), node).push(sorted.last())
    }
}

/// The first `k` nodes in the order of their names; nodes of the same name
/// keep the order they had.
pub open spec fn sorted_prefix(nodes: Seq<NodeView>, k: nat) -> Seq<NodeView>
    decreases k,
{
    if k == 0 || k > nodes.len() {
        Seq::empty()
    } else {
        insert_by_name(sorted_prefix(nodes, (k - 1) as nat), nodes[k - 1])
    }
}

/// The nodes in the order of their names; nodes of the same name keep the
/// order they had.
pub open spec fn sorted_by_name(nodes: Seq<NodeView>) -> Seq<NodeView> {
    sorted_prefix(nodes, nodes.len())
}

/// Whether the nodes stand in the order of their names.
pub open spec fn in_name_order(nodes: Seq<NodeView>) -> bool {
    forall|i: int, j: int|
        0 <= i < j < nodes.len() ==> name_le((#[trigger] nodes[i]).name, (#[trigger] nodes[j]).name)
}

/// Of two texts, one comes no later than the other.
pub proof fn lemma_bytes_le_total(a: Seq<u8>, b: Seq<u8>, i: int)
    requires
        0 <= i,
    ensures
        bytes_le_from(a, b, i) || bytes_le_from(b, a, i),
    decreases a.len() - i,
{
    if i < a.len() && i < b.len() && a[i] == b[i] {
        lemma_bytes_le_total(a, b, i + 1);
    }
}

/// What comes no later than a text that comes no later than a third comes
/// no later than the third.
pub proof fn lemma_bytes_le_chain(a: Seq<u8>, b: Seq<u8>, c: Seq<u8>, i: int)
    requires
        0 <= i,
        bytes_le_from(a, b, i),
        bytes_le_from(b, c, i),
    ensures
        bytes_le_from(a, c, i),
    decreases a.len() - i,
{
    if i < a.len() && i < b.len() && i < c.len() && a[i] == b[i] && b[i] == c[i] {
        lemma_bytes_le_chain(a, b, c, i + 1);
    }
}

/// Each node of a list with one more put in is that one or was in the list.
pub proof fn lemma_insert_members(sorted: Seq<NodeView>, node: NodeView, m: int)
    requires
        0 <= m < insert_by_name(sorted, node).len(),
    ensures
        insert_by_name(sorted, node)[m] == node || exists|j: int|
            0 <= j < sorted.len() && sorted[j] == insert_by_name(sorted, node)[m],
    decreases sorted.len(),
{
    if sorted.len() == 0 {
    } else if name_le(sorted.last().name, node.name) {
    } else {
        let front = insert_by_name(sorted.drop_last(), node);
        if m < front.len() {
            lemma_insert_members(sorted.drop_last(), node, m);
            if front[m] != node {
                let j = choose|j: int| 0 <= j < sorted.drop_last().len() && sorted.drop_last()[j]
                    == front[m];
            }
        }
    }
}

/// A node put into a list in the order of names leaves the list in that
/// order, and adds the node to what the list holds and nothing else.
pub proof fn lemma_insert_keeps_order(sorted: Seq<NodeView>, node: NodeView)
    requires
        in_name_order(sorted),
    ensures
        in_name_order(insert_by_name(sorted, node)),
        insert_by_name(sorted, node).to_multiset() == sorted.to_multiset().insert(node),
    decreases sorted.len(),
{
    broadcast use vstd::seq_lib::group_to_multiset_ensures;

    let out = insert_by_name(sorted, node);
    if sorted.len() == 0 {
    } else if name_le(sorted.last().name, node.name) {
        assert forall|i: int, j: int| 0 <= i < j < out.len() implies name_le(
            (#[trigger] out[i]).name,
            (#[trigger] out[j]).name,
        ) by {
            if j < sorted.len() {
            } else if i < sorted.len() - 1 {
                lemma_bytes_le_chain(
                    vstd::utf8::encode_utf8(sorted[i].name),
                    vstd::utf8::encode_utf8(sorted.last().name),
                    vstd::utf8::encode_utf8(node.name),
                    0,
                );
            }
        }
    } else {
        let rest = sorted.drop_last();
        let front = insert_by_name(rest, node);
        assert forall|i: int, j: int| 0 <= i < j < rest.len() implies name_le(
            (#[trigger] rest[i]).name,
            (#[trigger] rest[j]).name,
        ) by {}
        lemma_insert_keeps_order(rest, node);
        lemma_bytes_le_total(
            vstd::utf8::encode_utf8(sorted.last().name),
            vstd::utf8::encode_utf8(node.name),
            0,
        );
        assert forall|i: int, j: int| 0 <= i < j < out.len() implies name_le(
            (#[trigger] out[i]).name,
            (#[trigger] out[j]).name,
        ) by {
            if j < front.len() {
            } else {
                lemma_insert_members(rest, node, i);
                if front[i] != node {
                    let q = choose|q: int| 0 <= q < rest.len() && rest[q] == front[i];
                }
            }
        }
        assert(sorted =~= rest.push(sorted.last()));
    }
}

/// The sorted list is in the order of names, and holds what the list held:
/// each node as often as before.
pub proof fn law_sorted_by_name(nodes: Seq<NodeView>, k: nat)
    requires
        k <= nodes.len(),
    ensures
        in_name_order(sorted_prefix(nodes, k)),
        sorted_prefix(nodes, k).to_multiset() == nodes.subrange(0, k as int).to_multiset(),
    decreases k,
{
    broadcast use vstd::seq_lib::group_to_multiset_ensures;

    if k > 0 {
        law_sorted_by_name(nodes, (k - 1) as nat);
        lemma_insert_keeps_order(sorted_prefix(nodes, (k - 1) as nat), nodes[k - 1]);
        assert(nodes.subrange(0, k as int) =~= nodes.subrange(0, k - 1).push(nodes[k - 1]));
    }
}

/// Putting a node in where the scan from the end stops is putting it in by
/// name.
proof fn lemma_insert_position(sorted: Seq<NodeView>, node: NodeView, p: int)
    requires
        0 <= p <= sorted.len(),
        forall|j: int| p <= j < sorted.len() ==> !name_le(sorted[j].name, node.name),
        p > 0 ==> name_le(sorted[p - 1].name, node.name),
    ensures
        insert_by_name(sorted, node) == sorted.insert(p, node),
    decreases sorted.len(),
{
    if sorted.len() == 0 {
    } else if p == sorted.len() {
    } else {
        lemma_insert_position(sorted.drop_last(), node, p);
    }
}

/// Puts the nodes in the order of their names; nodes of the same name keep
/// the order they had.
pub fn sort_by_name(nodes: Vec<HierarchyNode>) -> (sorted: Vec<HierarchyNode>)
    ensures
        sorted.deep_view() == sorted_by_name(nodes.deep_view()),
{
    let ghost views = nodes.deep_view();
    let mut sorted: Vec<HierarchyNode> = Vec::new();
    for node in it: nodes.into_iter()
        invariant
            it.seq() == nodes@,
            views == nodes.deep_view(),
            sorted.deep_view() == sorted_prefix(views, it.index() as nat),
    {
        let ghost before = sorted.deep_view();
        let mut p: usize = sorted.len();
        while p > 0 && !name_comes_first(sorted[p - 1].name.as_str(), node.name.as_str())
            invariant
                p <= sorted@.len(),
                before == sorted.deep_view(),
                forall|j: int|
                    p <= j < sorted@.len() ==> !name_le(before[j].name, node.deep_view().name),
            decreases p,
        {
            p -= 1;
        }
        proof {
            lemma_insert_position(before, node.deep_view(), p as int);
        }
        sorted.insert(p, node);
    }
    sorted
}

/// Copies a forest.
pub fn clone_forest(hierarchy: &Vec<HierarchyNode>) -> (copy: Vec<HierarchyNode>)
    ensures
        copy.deep_view() == hierarchy.deep_view(),
{
    crate::objects::clone_list(hierarchy)
}

/// The forest as readers see it: a copy with the roots in the order of
/// their names.
pub fn current_tree(hierarchy: &Vec<HierarchyNode>) -> (tree: Vec<HierarchyNode>)
    ensures
        tree.deep_view() == sorted_by_name(hierarchy.deep_view()),
{
    sort_by_name(clone_forest(hierarchy))
}

// ---------------------------------------------------------------------------
// Readiness

/// Whether the forest is ready to be served: it has at least one root.
pub fn is_ready(hierarchy: &Vec<HierarchyNode>) -> (ready: bool)
    ensures
        ready == (hierarchy.deep_view().len() > 0),
{
    hierarchy.len() != 0
}

/// The message of the health check.
pub open spec fn health_text(ready: bool) -> Seq<char> {
    if ready {
        "ready"@
    } else {
        "waiting for kubernetes resources"@
    }
}

/// The message of the health check: whether the forest is ready, or what it
/// waits for.
pub fn health_message(ready: bool) -> (message: String)
    ensures
        message@ == health_text(ready),
{
    if ready {
        String::from_str("ready")
    } else {
        String::from_str("waiting for kubernetes resources")
    }
}

// ---------------------------------------------------------------------------
// The stream of forests

/// What a subscriber's end of the stream has for it next.
#[derive(Debug, PartialEq, Eq)]
pub enum Received {
    /// The forest as it was published.
    Update(Vec<HierarchyNode>),
    /// The subscriber fell behind and lost this many publications.
    Lagged(u64),
    /// Nothing will be published any more.
    Closed,
}

/// What to do for a subscriber.
#[derive(Debug, PartialEq, Eq)]
pub enum StreamStep {
    /// Send this forest.
    Send(Vec<HierarchyNode>),
    /// End the stream.
    Stop,
}

/// The mathematical value of a [`StreamStep`].
pub enum StreamStepView {
    Send(Seq<NodeView>),
    Stop,
}

impl DeepView for StreamStep {
    type V = StreamStepView;

    open spec fn deep_view(&self) -> StreamStepView {
        match self {
            StreamStep::Send(forest) => StreamStepView::Send(forest.deep_view()),
            StreamStep::Stop => StreamStepView::Stop,
        }
    }
}

/// What a subscriber is sent first: the forest as it is when it subscribes,
/// in the order of names.
pub fn first_step(current: &Vec<HierarchyNode>) -> (step: StreamStep)
    ensures
        step.deep_view() == StreamStepView::Send(sorted_by_name(current.deep_view())),
{
    StreamStep::Send(current_tree(current))
}

/// What to do for a subscriber next. A published forest is sent on in the
/// order of names. A subscriber that fell behind is not sent what it lost
/// but the forest as it is now. When nothing will be published any more the
/// stream ends.
pub fn next_step(received: Received, current: &Vec<HierarchyNode>) -> (step: StreamStep)
    ensures
        step.deep_view() == (match received {
            Received::Update(forest) => StreamStepView::Send(sorted_by_name(forest.deep_view())),
            Received::Lagged(_) => StreamStepView::Send(sorted_by_name(current.deep_view())),
            Received::Closed => StreamStepView::Stop,
        }),
{
    match received {
        Received::Update(forest) => StreamStep::Send(sort_by_name(forest)),
        Received::Lagged(_) => StreamStep::Send(current_tree(current)),
        Received::Closed => StreamStep::Stop,
    }
}

} // verus!
