//! Counting the nodes that stand for an object, and how taking nodes out
//! and putting nodes in changes the count.

use crate::node::{NodeView, ResourceKind, pod_node};
use crate::objects::PodView;
use crate::reconcile::{adopt, adopt_list, takes, with_child};
use crate::tree::{
    ObjectRef, forest_holds, forest_without, holds, holds_list, node_is, ref_of, without,
    without_list,
};
use vstd::prelude::*;

verus! {

/// One where the node stands for the object, else nothing.
pub open spec fn hit(node: NodeView, r: ObjectRef) -> nat {
    if node_is(node, r) {
        1
    } else {
        0
    }
}

/// Whether the nodes under `node` are left out of a count: in a count of the
/// free nodes, what stands under a route is.
pub open spec fn cut_off(node: NodeView, free: bool) -> bool {
    free && node.kind == ResourceKind::HTTPRoute
}

/// How many nodes under `node` stand for the object. With `free` set, only
/// those that do not stand under a route are counted.
pub open spec fn count(node: NodeView, r: ObjectRef, free: bool) -> nat
    decreases node, 0nat,
{
    count_list(node.relatives, node.relatives.len(), r, free)
}

/// How many of the first `k` nodes, and of the nodes under them, stand for
/// the object.
pub open spec fn count_list(nodes: Seq<NodeView>, k: nat, r: ObjectRef, free: bool) -> nat
    decreases nodes, k,
{
    if k == 0 || k > nodes.len() {
        0
    } else {
        count_list(nodes, (k - 1) as nat, r, free) + hit(nodes[k - 1], r) + (if cut_off(
            nodes[k - 1],
            free,
        ) {
            0
        } else {
            count(nodes[k - 1], r, free)
        })
    }
}

/// What a node adds to the count of its parent: itself, and what is counted
/// under it.
pub open spec fn weight(node: NodeView, r: ObjectRef, free: bool) -> nat {
    hit(node, r) + (if cut_off(node, free) {
        0
    } else {
        count(node, r, free)
    })
}

/// How many nodes under the first `k` roots stand for the object.
pub open spec fn forest_count(forest: Seq<NodeView>, k: nat, r: ObjectRef, free: bool) -> nat
    decreases k,
{
    if k == 0 || k > forest.len() {
        0
    } else {
        forest_count(forest, (k - 1) as nat, r, free) + count(forest[k - 1], r, free)
    }
}

/// How many nodes in the forest stand for the object, the roots aside.
pub open spec fn total(forest: Seq<NodeView>, r: ObjectRef, free: bool) -> nat {
    forest_count(forest, forest.len(), r, free)
}

// ---------------------------------------------------------------------------
// To be there is to be counted

/// An object has a node under `node` exactly if its count there is not
/// nothing.
pub proof fn lemma_holds_counted(node: NodeView, r: ObjectRef)
    ensures
        holds(node, r) <==> count(node, r, false) > 0,
    decreases node, 0nat,
{
    lemma_holds_list_counted(node.relatives, node.relatives.len(), r);
}

/// An object has a node among the first `k` nodes, or under them, exactly
/// if its count there is not nothing.
pub proof fn lemma_holds_list_counted(nodes: Seq<NodeView>, k: nat, r: ObjectRef)
    requires
        k <= nodes.len(),
    ensures
        holds_list(nodes, k, r) <==> count_list(nodes, k, r, false) > 0,
    decreases nodes, k,
{
    if k > 0 {
        lemma_holds_list_counted(nodes, (k - 1) as nat, r);
        lemma_holds_counted(nodes[k - 1], r);
    }
}

/// An object has a node under the first `k` roots exactly if its count
/// there is not nothing.
pub proof fn law_present_is_counted(forest: Seq<NodeView>, k: nat, r: ObjectRef)
    requires
        k <= forest.len(),
    ensures
        forest_holds(forest, k, r) <==> forest_count(forest, k, r, false) > 0,
    decreases k,
{
    if k > 0 {
        law_present_is_counted(forest, (k - 1) as nat, r);
        lemma_holds_counted(forest[k - 1], r);
    }
}

// ---------------------------------------------------------------------------
// Counts go by the nodes counted

/// The count over the first `k` nodes depends on those nodes alone.
pub proof fn lemma_count_list_prefix(
    a: Seq<NodeView>,
    b: Seq<NodeView>,
    k: nat,
    r: ObjectRef,
    free: bool,
)
    requires
        k <= a.len(),
        k <= b.len(),
        forall|j: int| 0 <= j < k ==> a[j] == b[j],
    ensures
        count_list(a, k, r, free) == count_list(b, k, r, free),
    decreases k,
{
    if k > 0 {
        lemma_count_list_prefix(a, b, (k - 1) as nat, r, free);
    }
}

/// The count over the first `k` roots depends on those roots alone.
pub proof fn lemma_forest_count_prefix(
    a: Seq<NodeView>,
    b: Seq<NodeView>,
    k: nat,
    r: ObjectRef,
    free: bool,
)
    requires
        k <= a.len(),
        k <= b.len(),
        forall|j: int| 0 <= j < k ==> count(a[j], r, free) == count(b[j], r, free),
    ensures
        forest_count(a, k, r, free) == forest_count(b, k, r, free),
    decreases k,
{
    if k > 0 {
        lemma_forest_count_prefix(a, b, (k - 1) as nat, r, free);
    }
}

/// The free nodes are among all nodes.
pub proof fn lemma_free_le(node: NodeView, r: ObjectRef)
    ensures
        count(node, r, true) <= count(node, r, false),
    decreases node, 0nat,
{
    lemma_free_le_list(node.relatives, node.relatives.len(), r);
}

/// The free nodes are among all nodes.
pub proof fn lemma_free_le_list(nodes: Seq<NodeView>, k: nat, r: ObjectRef)
    requires
        k <= nodes.len(),
    ensures
        count_list(nodes, k, r, true) <= count_list(nodes, k, r, false),
    decreases nodes, k,
{
    if k > 0 {
        lemma_free_le_list(nodes, (k - 1) as nat, r);
        lemma_free_le(nodes[k - 1], r);
    }
}

/// The free nodes of a forest are among all its nodes.
pub proof fn lemma_free_le_forest(forest: Seq<NodeView>, k: nat, r: ObjectRef)
    requires
        k <= forest.len(),
    ensures
        forest_count(forest, k, r, true) <= forest_count(forest, k, r, false),
    decreases k,
{
    if k > 0 {
        lemma_free_le_forest(forest, (k - 1) as nat, r);
        lemma_free_le(forest[k - 1], r);
    }
}

// ---------------------------------------------------------------------------
// Taking an object out

/// Once an object is taken out from under a node, no node under it stands
/// for the object.
pub proof fn lemma_without_clears(node: NodeView, r: ObjectRef, free: bool)
    ensures
        count(without(node, r), r, free) == 0,
    decreases node, 0nat,
{
    lemma_without_list_clears(node.relatives, node.relatives.len(), r, free);
}

/// Once an object is taken out of a list, no node in it or under it stands
/// for the object.
pub proof fn lemma_without_list_clears(nodes: Seq<NodeView>, k: nat, r: ObjectRef, free: bool)
    requires
        k <= nodes.len(),
    ensures
        count_list(without_list(nodes, k, r), without_list(nodes, k, r).len(), r, free) == 0,
    decreases nodes, k,
{
    if k > 0 {
        let rest = without_list(nodes, (k - 1) as nat, r);
        lemma_without_list_clears(nodes, (k - 1) as nat, r, free);
        if !node_is(nodes[k - 1], r) {
            let kept = without(nodes[k - 1], r);
            lemma_without_clears(nodes[k - 1], r, free);
            lemma_count_list_prefix(rest.push(kept), rest, rest.len(), r, free);
        }
    }
}

/// Taking an object out adds no node for any object.
pub proof fn lemma_without_le(node: NodeView, r: ObjectRef, other: ObjectRef, free: bool)
    ensures
        count(without(node, r), other, free) <= count(node, other, free),
    decreases node, 0nat,
{
    lemma_without_list_le(node.relatives, node.relatives.len(), r, other, free);
}

/// Taking an object out of a list adds no node for any object.
pub proof fn lemma_without_list_le(
    nodes: Seq<NodeView>,
    k: nat,
    r: ObjectRef,
    other: ObjectRef,
    free: bool,
)
    requires
        k <= nodes.len(),
    ensures
        count_list(without_list(nodes, k, r), without_list(nodes, k, r).len(), other, free)
            <= count_list(nodes, k, other, free),
    decreases nodes, k,
{
    if k > 0 {
        let rest = without_list(nodes, (k - 1) as nat, r);
        lemma_without_list_le(nodes, (k - 1) as nat, r, other, free);
        if !node_is(nodes[k - 1], r) {
            let kept = without(nodes[k - 1], r);
            lemma_without_le(nodes[k - 1], r, other, free);
            lemma_count_list_prefix(rest.push(kept), rest, rest.len(), other, free);
        }
    }
}

/// Once an object is taken out of a forest, no node in it stands for the
/// object.
pub proof fn lemma_forest_without_clears(forest: Seq<NodeView>, k: nat, r: ObjectRef, free: bool)
    requires
        k <= forest.len(),
    ensures
        forest_count(forest_without(forest, r), k, r, free) == 0,
    decreases k,
{
    if k > 0 {
        lemma_forest_without_clears(forest, (k - 1) as nat, r, free);
        lemma_without_clears(forest[k - 1], r, free);
    }
}

/// Taking an object out of a forest adds no node for any object.
pub proof fn lemma_forest_without_le(
    forest: Seq<NodeView>,
    k: nat,
    r: ObjectRef,
    other: ObjectRef,
    free: bool,
)
    requires
        k <= forest.len(),
    ensures
        forest_count(forest_without(forest, r), k, other, free) <= forest_count(
            forest,
            k,
            other,
            free,
        ),
    decreases k,
{
    if k > 0 {
        lemma_forest_without_le(forest, (k - 1) as nat, r, other, free);
        lemma_without_le(forest[k - 1], r, other, free);
    }
}

// ---------------------------------------------------------------------------
// Putting a node in

/// A node attached under another adds its weight to the count.
pub proof fn lemma_with_child_count(node: NodeView, child: NodeView, r: ObjectRef, free: bool)
    ensures
        count(with_child(node, child), r, free) == count(node, r, free) + weight(child, r, free),
{
    let grown = node.relatives.push(child);
    lemma_count_list_prefix(grown, node.relatives, node.relatives.len(), r, free);
}

/// A root that is replaced changes the count of the forest by the difference
/// of what stands under the old and the new root.
pub proof fn lemma_update_count(
    forest: Seq<NodeView>,
    i: int,
    root: NodeView,
    k: nat,
    r: ObjectRef,
    free: bool,
)
    requires
        0 <= i < forest.len(),
        k <= forest.len(),
    ensures
        forest_count(forest.update(i, root), k, r, free) + (if i < k {
            count(forest[i], r, free)
        } else {
            0
        }) == forest_count(forest, k, r, free) + (if i < k {
            count(root, r, free)
        } else {
            0
        }),
    decreases k,
{
    if k > 0 {
        lemma_update_count(forest, i, root, (k - 1) as nat, r, free);
    }
}

/// A root that is added brings what stands under it into the count.
pub proof fn lemma_push_count(forest: Seq<NodeView>, root: NodeView, r: ObjectRef, free: bool)
    ensures
        total(forest.push(root), r, free) == total(forest, r, free) + count(root, r, free),
{
    lemma_forest_count_prefix(forest.push(root), forest, forest.len(), r, free);
}

/// The node of a pod has nothing under it.
pub proof fn lemma_pod_node_weight(pod: PodView, r: ObjectRef, free: bool)
    ensures
        weight(pod_node(pod), r, free) == hit(pod_node(pod), r),
        node_is(pod_node(pod), r) <==> r == ref_of(ResourceKind::Pod, pod.metadata),
{
}

/// The service that a pod is put under: the service of the given name in
/// the namespace of the pod.
pub open spec fn host_ref(pod: PodView, name: Seq<char>) -> ObjectRef {
    crate::tree::object_ref(ResourceKind::Service, pod.metadata.namespace, name)
}

/// A pod put under every copy of a service adds nothing to the count of any
/// other object, and to its own count at most one for each copy of the
/// service that is counted.
pub proof fn lemma_adopt_count(
    node: NodeView,
    pod: PodView,
    labels: Map<Seq<char>, Seq<char>>,
    name: Seq<char>,
    r: ObjectRef,
    free: bool,
)
    ensures
        r != ref_of(ResourceKind::Pod, pod.metadata) ==> count(
            adopt(node, pod, labels, name),
            r,
            free,
        ) == count(node, r, free),
        count(adopt(node, pod, labels, name), r, free) >= count(node, r, free),
        count(adopt(node, pod, labels, name), r, free) <= count(node, r, free) + count(
            node,
            host_ref(pod, name),
            free,
        ) + (if takes(node, pod, labels, name) {
            1nat
        } else {
            0nat
        }),
    decreases node, 0nat,
{
    let below = adopt_list(node.relatives, node.relatives.len(), pod, labels, name);
    lemma_pod_node_weight(pod, r, free);
    lemma_adopt_list_count(node.relatives, node.relatives.len(), pod, labels, name, r, free);
    if takes(node, pod, labels, name) {
        lemma_count_list_prefix(below.push(pod_node(pod)), below, below.len(), r, free);
    }
}

/// The same, for the first `k` nodes of a list.
pub proof fn lemma_adopt_list_count(
    nodes: Seq<NodeView>,
    k: nat,
    pod: PodView,
    labels: Map<Seq<char>, Seq<char>>,
    name: Seq<char>,
    r: ObjectRef,
    free: bool,
)
    requires
        k <= nodes.len(),
    ensures
        adopt_list(nodes, k, pod, labels, name).len() == k,
        r != ref_of(ResourceKind::Pod, pod.metadata) ==> count_list(
            adopt_list(nodes, k, pod, labels, name),
            k,
            r,
            free,
        ) == count_list(nodes, k, r, free),
        count_list(adopt_list(nodes, k, pod, labels, name), k, r, free) >= count_list(
            nodes,
            k,
            r,
            free,
        ),
        count_list(adopt_list(nodes, k, pod, labels, name), k, r, free) <= count_list(
            nodes,
            k,
            r,
            free,
        ) + count_list(nodes, k, host_ref(pod, name), free),
    decreases nodes, k,
{
    if k > 0 {
        let rest = adopt_list(nodes, (k - 1) as nat, pod, labels, name);
        let last = adopt(nodes[k - 1], pod, labels, name);
        lemma_adopt_list_count(nodes, (k - 1) as nat, pod, labels, name, r, free);
        lemma_adopt_count(nodes[k - 1], pod, labels, name, r, free);
        lemma_count_list_prefix(rest.push(last), rest, rest.len(), r, free);
    }
}

/// Where a service is chosen for a pod, the pod has a node once it was put
/// under every copy of that service.
pub proof fn lemma_adopt_count_some(
    node: NodeView,
    pod: PodView,
    labels: Map<Seq<char>, Seq<char>>,
    name: Seq<char>,
)
    requires
        crate::reconcile::chosen(node, pod.metadata.namespace, labels) == Some(name),
    ensures
        count(adopt(node, pod, labels, name), ref_of(ResourceKind::Pod, pod.metadata), false) >= 1,
    decreases node, 0nat,
{
    let r = ref_of(ResourceKind::Pod, pod.metadata);
    let below = adopt_list(node.relatives, node.relatives.len(), pod, labels, name);
    lemma_pod_node_weight(pod, r, false);
    lemma_adopt_list_count(node.relatives, node.relatives.len(), pod, labels, name, r, false);
    if crate::rules::node_selects(node, pod.metadata.namespace, labels) {
        lemma_count_list_prefix(below.push(pod_node(pod)), below, below.len(), r, false);
    } else {
        lemma_adopt_list_count_some(node.relatives, node.relatives.len(), pod, labels, name);
    }
}

/// The same, for the first `k` nodes of a list.
pub proof fn lemma_adopt_list_count_some(
    nodes: Seq<NodeView>,
    k: nat,
    pod: PodView,
    labels: Map<Seq<char>, Seq<char>>,
    name: Seq<char>,
)
    requires
        k <= nodes.len(),
        crate::reconcile::chosen_list(nodes, k, pod.metadata.namespace, labels) == Some(name),
    ensures
        count_list(
            adopt_list(nodes, k, pod, labels, name),
            k,
            ref_of(ResourceKind::Pod, pod.metadata),
            false,
        ) >= 1,
    decreases nodes, k,
{
    let r = ref_of(ResourceKind::Pod, pod.metadata);
    let rest = adopt_list(nodes, (k - 1) as nat, pod, labels, name);
    let last = adopt(nodes[k - 1], pod, labels, name);
    lemma_adopt_list_count(nodes, (k - 1) as nat, pod, labels, name, r, false);
    lemma_count_list_prefix(rest.push(last), rest, rest.len(), r, false);
    if crate::reconcile::chosen_list(nodes, (k - 1) as nat, pod.metadata.namespace, labels)
        is Some {
        lemma_adopt_list_count_some(nodes, (k - 1) as nat, pod, labels, name);
    } else {
        lemma_adopt_count_some(nodes[k - 1], pod, labels, name);
    }
}

// ---------------------------------------------------------------------------
// Taking out what is not there, and what was just put in

/// Taking an object out of the first `k` nodes goes by those nodes alone.
pub proof fn lemma_without_list_prefix(a: Seq<NodeView>, b: Seq<NodeView>, k: nat, r: ObjectRef)
    requires
        k <= a.len(),
        k <= b.len(),
        forall|j: int| 0 <= j < k ==> a[j] == b[j],
    ensures
        without_list(a, k, r) == without_list(b, k, r),
    decreases k,
{
    if k > 0 {
        lemma_without_list_prefix(a, b, (k - 1) as nat, r);
    }
}

/// Taking out an object that has no node under `node` changes nothing.
pub proof fn lemma_without_absent(node: NodeView, r: ObjectRef)
    requires
        count(node, r, false) == 0,
    ensures
        without(node, r) == node,
    decreases node, 0nat,
{
    lemma_without_list_absent(node.relatives, node.relatives.len(), r);
    assert(node.relatives.subrange(0, node.relatives.len() as int) =~= node.relatives);
}

/// Taking out an object that has no node among the first `k` nodes, or
/// under them, leaves those nodes as they are.
pub proof fn lemma_without_list_absent(nodes: Seq<NodeView>, k: nat, r: ObjectRef)
    requires
        k <= nodes.len(),
        count_list(nodes, k, r, false) == 0,
    ensures
        without_list(nodes, k, r) == nodes.subrange(0, k as int),
    decreases nodes, k,
{
    if k > 0 {
        lemma_without_list_absent(nodes, (k - 1) as nat, r);
        lemma_without_absent(nodes[k - 1], r);
    }
}

/// Where an object has no node under the first `k` roots, it has none under
/// any of them.
pub proof fn lemma_forest_count_parts(forest: Seq<NodeView>, k: nat, r: ObjectRef, free: bool, j: int)
    requires
        0 <= j < k <= forest.len(),
        forest_count(forest, k, r, free) == 0,
    ensures
        count(forest[j], r, free) == 0,
    decreases k,
{
    if j < k - 1 {
        lemma_forest_count_parts(forest, (k - 1) as nat, r, free, j);
    }
}

/// Taking out an object that has no node in the forest changes nothing.
pub proof fn lemma_forest_without_absent(forest: Seq<NodeView>, r: ObjectRef)
    requires
        total(forest, r, false) == 0,
    ensures
        forest_without(forest, r) == forest,
{
    assert forall|j: int| 0 <= j < forest.len() implies without(forest[j], r) == forest[j] by {
        lemma_forest_count_parts(forest, forest.len(), r, false, j);
        lemma_without_absent(forest[j], r);
    }
}

/// Taking an object out a second time changes nothing.
pub proof fn lemma_without_twice(node: NodeView, r: ObjectRef)
    ensures
        without(without(node, r), r) == without(node, r),
{
    lemma_without_clears(node, r, false);
    lemma_without_absent(without(node, r), r);
}

/// Taking out a node that was just attached leaves what was there before,
/// less the object.
pub proof fn lemma_without_with_child(node: NodeView, child: NodeView, r: ObjectRef)
    requires
        node_is(child, r),
    ensures
        without(with_child(node, child), r) == without(node, r),
{
    lemma_without_list_prefix(
        node.relatives.push(child),
        node.relatives,
        node.relatives.len(),
        r,
    );
}

/// Taking a pod out after it was put under every copy of a service leaves
/// what was there before, less the pod.
pub proof fn lemma_without_adopt(
    node: NodeView,
    pod: PodView,
    labels: Map<Seq<char>, Seq<char>>,
    name: Seq<char>,
)
    ensures
        without(adopt(node, pod, labels, name), ref_of(ResourceKind::Pod, pod.metadata))
            == without(node, ref_of(ResourceKind::Pod, pod.metadata)),
    decreases node, 0nat,
{
    let r = ref_of(ResourceKind::Pod, pod.metadata);
    let below = adopt_list(node.relatives, node.relatives.len(), pod, labels, name);
    lemma_without_adopt_list(node.relatives, node.relatives.len(), pod, labels, name);
    if takes(node, pod, labels, name) {
        lemma_without_list_prefix(below.push(pod_node(pod)), below, below.len(), r);
    }
}

/// The same, for the first `k` nodes of a list.
pub proof fn lemma_without_adopt_list(
    nodes: Seq<NodeView>,
    k: nat,
    pod: PodView,
    labels: Map<Seq<char>, Seq<char>>,
    name: Seq<char>,
)
    requires
        k <= nodes.len(),
    ensures
        adopt_list(nodes, k, pod, labels, name).len() == k,
        without_list(
            adopt_list(nodes, k, pod, labels, name),
            k,
            ref_of(ResourceKind::Pod, pod.metadata),
        ) == without_list(nodes, k, ref_of(ResourceKind::Pod, pod.metadata)),
    decreases nodes, k,
{
    let r = ref_of(ResourceKind::Pod, pod.metadata);
    if k > 0 {
        let rest = adopt_list(nodes, (k - 1) as nat, pod, labels, name);
        let last = adopt(nodes[k - 1], pod, labels, name);
        lemma_without_adopt_list(nodes, (k - 1) as nat, pod, labels, name);
        lemma_without_list_prefix(rest.push(last), rest, rest.len(), r);
        lemma_without_adopt(nodes[k - 1], pod, labels, name);
    }
}

/// What stands under one root is counted in the forest.
pub proof fn lemma_count_in_total(forest: Seq<NodeView>, k: nat, r: ObjectRef, free: bool, j: int)
    requires
        0 <= j < k <= forest.len(),
    ensures
        count(forest[j], r, free) <= forest_count(forest, k, r, free),
    decreases k,
{
    if j < k - 1 {
        lemma_count_in_total(forest, (k - 1) as nat, r, free, j);
    }
}

} // verus!
