//! Taking several objects out of a forest, in any order, and what putting a
//! service in amounts to once objects are taken out afterwards.

use crate::counting::{lemma_without_list_prefix, lemma_without_with_child};
use crate::node::{NodeView, ResourceKind};
use crate::reconcile::{fan_out, place_service, referenced_among, with_child};
use crate::rules::node_references;
use crate::tree::{ObjectRef, forest_without, node_is, without, without_list};
use vstd::prelude::*;

verus! {

/// Taking an object out of a list that ends in `last` is taking it out of
/// the list before `last`, and then dropping `last` or keeping it, less the
/// object.
pub proof fn lemma_without_list_push(nodes: Seq<NodeView>, last: NodeView, r: ObjectRef)
    ensures
        without_list(nodes.push(last), nodes.len() + 1, r) == (if node_is(last, r) {
            without_list(nodes, nodes.len(), r)
        } else {
            without_list(nodes, nodes.len(), r).push(without(last, r))
        }),
{
    lemma_without_list_prefix(nodes.push(last), nodes, nodes.len(), r);
}

/// Two objects are taken out in either order to the same end.
pub proof fn lemma_without_commute(node: NodeView, q: ObjectRef, r: ObjectRef)
    ensures
        without(without(node, q), r) == without(without(node, r), q),
    decreases node, 0nat,
{
    lemma_without_list_commute(node.relatives, node.relatives.len(), q, r);
}

/// Two objects are taken out of a list in either order to the same end.
pub proof fn lemma_without_list_commute(nodes: Seq<NodeView>, k: nat, q: ObjectRef, r: ObjectRef)
    requires
        k <= nodes.len(),
    ensures
        without_list(without_list(nodes, k, q), without_list(nodes, k, q).len(), r) == without_list(
            without_list(nodes, k, r),
            without_list(nodes, k, r).len(),
            q,
        ),
    decreases nodes, k,
{
    if k > 0 {
        let last = nodes[k - 1];
        let by_q = without_list(nodes, (k - 1) as nat, q);
        let by_r = without_list(nodes, (k - 1) as nat, r);
        lemma_without_list_commute(nodes, (k - 1) as nat, q, r);
        lemma_without_commute(last, q, r);
        if !node_is(last, q) {
            lemma_without_list_push(by_q, without(last, q), r);
        }
        if !node_is(last, r) {
            lemma_without_list_push(by_r, without(last, r), q);
        }
    }
}

/// Two objects are taken out of a forest in either order to the same end.
pub proof fn lemma_forest_without_commute(forest: Seq<NodeView>, q: ObjectRef, r: ObjectRef)
    ensures
        forest_without(forest_without(forest, q), r) == forest_without(
            forest_without(forest, r),
            q,
        ),
{
    assert forall|j: int| 0 <= j < forest.len() implies without(without(forest[j], q), r)
        == without(without(forest[j], r), q) by {
        lemma_without_commute(forest[j], q, r);
    }
}

/// The forest with each of the first `k` objects of a list taken out.
pub open spec fn wipe(forest: Seq<NodeView>, gone: Seq<ObjectRef>, k: nat) -> Seq<NodeView>
    decreases k,
{
    if k == 0 || k > gone.len() {
        forest
    } else {
        forest_without(wipe(forest, gone, (k - 1) as nat), gone[k - 1])
    }
}

/// Taking one object out before a list of objects is taking it out after.
pub proof fn lemma_wipe_without(forest: Seq<NodeView>, gone: Seq<ObjectRef>, k: nat, q: ObjectRef)
    requires
        k <= gone.len(),
    ensures
        wipe(forest_without(forest, q), gone, k) == forest_without(wipe(forest, gone, k), q),
        wipe(forest, gone, k).len() == forest.len(),
    decreases k,
{
    if k > 0 {
        lemma_wipe_without(forest, gone, (k - 1) as nat, q);
        lemma_forest_without_commute(wipe(forest, gone, (k - 1) as nat), q, gone[k - 1]);
    }
}

/// Two lists of objects are taken out in either order to the same end.
pub proof fn lemma_wipe_commute(
    forest: Seq<NodeView>,
    a: Seq<ObjectRef>,
    m: nat,
    b: Seq<ObjectRef>,
    k: nat,
)
    requires
        m <= a.len(),
        k <= b.len(),
    ensures
        wipe(wipe(forest, a, m), b, k) == wipe(wipe(forest, b, k), a, m),
    decreases k,
{
    if k > 0 {
        lemma_wipe_commute(forest, a, m, b, (k - 1) as nat);
        lemma_wipe_without(wipe(forest, b, (k - 1) as nat), a, m, b[k - 1]);
    }
}

/// Taking out a list of objects goes by the objects taken out.
pub proof fn lemma_wipe_prefix(forest: Seq<NodeView>, a: Seq<ObjectRef>, b: Seq<ObjectRef>, k: nat)
    requires
        k <= a.len(),
        k <= b.len(),
        forall|j: int| 0 <= j < k ==> a[j] == b[j],
    ensures
        wipe(forest, a, k) == wipe(forest, b, k),
    decreases k,
{
    if k > 0 {
        lemma_wipe_prefix(forest, a, b, (k - 1) as nat);
    }
}

/// Taking out two lists one after the other is taking out the one list
/// made of both.
pub proof fn lemma_wipe_append(forest: Seq<NodeView>, a: Seq<ObjectRef>, b: Seq<ObjectRef>, k: nat)
    requires
        k <= b.len(),
    ensures
        wipe(wipe(forest, a, a.len()), b, k) == wipe(forest, a + b, a.len() + k),
    decreases k,
{
    if k > 0 {
        lemma_wipe_append(forest, a, b, (k - 1) as nat);
    } else {
        lemma_wipe_prefix(forest, a, a + b, a.len());
    }
}

// ---------------------------------------------------------------------------
// Taking objects out after a service was put in

/// Taking an object out from under a node to which a node for something
/// else was just attached is attaching that node, less the object, to the
/// node, less the object.
pub proof fn lemma_without_with_child_other(node: NodeView, child: NodeView, r: ObjectRef)
    requires
        !node_is(child, r),
    ensures
        without(with_child(node, child), r) == with_child(without(node, r), without(child, r)),
{
    lemma_without_list_push(node.relatives, child, r);
}

/// Taking out an object that is no route changes nothing in whether a route
/// among the nodes refers to a name.
pub proof fn lemma_referenced_without(nodes: Seq<NodeView>, k: nat, name: Seq<char>, q: ObjectRef)
    requires
        k <= nodes.len(),
        q.kind != ResourceKind::HTTPRoute,
    ensures
        referenced_among(without_list(nodes, k, q), without_list(nodes, k, q).len(), name)
            == referenced_among(nodes, k, name),
    decreases k,
{
    if k > 0 {
        lemma_referenced_without(nodes, (k - 1) as nat, name, q);
        let rest = without_list(nodes, (k - 1) as nat, q);
        if !node_is(nodes[k - 1], q) {
            crate::placement::lemma_referenced_prefix(
                rest.push(without(nodes[k - 1], q)),
                rest,
                rest.len(),
                name,
            );
        }
    }
}

/// The copies under the routes, after an object was taken out: none where
/// the copy stood for the object, else the copy less the object.
pub open spec fn fan_out_without(nodes: Seq<NodeView>, name: Seq<char>, node: NodeView, q: ObjectRef) -> Seq<
    NodeView,
> {
    if node_is(node, q) {
        nodes
    } else {
        fan_out(nodes, name, without(node, q))
    }
}

/// Taking an object out after copies were attached under the routes is
/// taking it out first and attaching the copies, less the object, after;
/// or attaching none, where the copy stands for the object.
pub proof fn lemma_without_fan_out_other(
    nodes: Seq<NodeView>,
    k: nat,
    name: Seq<char>,
    node: NodeView,
    q: ObjectRef,
)
    requires
        k <= nodes.len(),
    ensures
        without_list(fan_out(nodes, name, node), k, q) == fan_out_without(
            without_list(nodes, k, q),
            name,
            node,
            q,
        ),
    decreases k,
{
    if k > 0 {
        let last = nodes[k - 1];
        lemma_without_fan_out_other(nodes, (k - 1) as nat, name, node, q);
        if !node_is(last, q) {
            let kept = without(last, q);
            if node_references(last, name) {
                if node_is(node, q) {
                    lemma_without_with_child(last, node, q);
                } else {
                    lemma_without_with_child_other(last, node, q);
                }
            }
        }
    }
}

/// A root with a service put under it, after an object was taken out: the
/// root less the object where the service stood for the object, else the
/// root less the object with the service, less the object, put under it.
pub open spec fn place_without(root: NodeView, node: NodeView, name: Seq<char>, q: ObjectRef) -> NodeView {
    if node_is(node, q) {
        without(root, q)
    } else {
        place_service(without(root, q), without(node, q), name)
    }
}

/// Taking an object that is no route out after a service was put under a
/// root is taking it out first and putting the service in after.
pub proof fn lemma_without_place_other(root: NodeView, node: NodeView, name: Seq<char>, q: ObjectRef)
    requires
        q.kind != ResourceKind::HTTPRoute,
    ensures
        without(place_service(root, node, name), q) == place_without(root, node, name, q),
{
    let below = root.relatives;
    lemma_referenced_without(below, below.len(), name, q);
    if referenced_among(below, below.len(), name) {
        lemma_without_fan_out_other(below, below.len(), name, node, q);
    } else {
        if node_is(node, q) {
            lemma_without_with_child(root, node, q);
        } else {
            lemma_without_with_child_other(root, node, q);
        }
    }
}

/// Whether none of the objects is a route.
pub open spec fn no_routes(gone: Seq<ObjectRef>) -> bool {
    forall|j: int| 0 <= j < gone.len() ==> (#[trigger] gone[j]).kind != ResourceKind::HTTPRoute
}

/// What is left of a node once each of the first `k` objects was taken out
/// from under it: nothing where the node stood for one of them.
pub open spec fn washed(node: NodeView, gone: Seq<ObjectRef>, k: nat) -> Option<NodeView>
    decreases k,
{
    if k == 0 || k > gone.len() {
        Some(node)
    } else {
        match washed(node, gone, (k - 1) as nat) {
            Some(n) => if node_is(n, gone[k - 1]) {
                None
            } else {
                Some(without(n, gone[k - 1]))
            },
            None => None,
        }
    }
}

/// A forest with what is left of a service put under the root at `i`.
pub open spec fn placed(
    forest: Seq<NodeView>,
    i: int,
    left: Option<NodeView>,
    name: Seq<char>,
) -> Seq<NodeView> {
    match left {
        Some(node) => forest.update(i, place_service(forest[i], node, name)),
        None => forest,
    }
}

/// Taking objects that are no routes out after a service was put in is
/// taking them out first and putting in what is left of the service.
pub proof fn lemma_wipe_placed(
    forest: Seq<NodeView>,
    i: int,
    node: NodeView,
    name: Seq<char>,
    gone: Seq<ObjectRef>,
    k: nat,
)
    requires
        0 <= i < forest.len(),
        k <= gone.len(),
        no_routes(gone),
    ensures
        wipe(forest, gone, k).len() == forest.len(),
        wipe(placed(forest, i, Some(node), name), gone, k) == placed(
            wipe(forest, gone, k),
            i,
            washed(node, gone, k),
            name,
        ),
    decreases k,
{
    if k > 0 {
        lemma_wipe_placed(forest, i, node, name, gone, (k - 1) as nat);
        let q = gone[k - 1];
        let before = wipe(forest, gone, (k - 1) as nat);
        match washed(node, gone, (k - 1) as nat) {
            Some(n) => {
                lemma_without_place_other(before[i], n, name, q);
            },
            None => {},
        }
    }
}

} // verus!
