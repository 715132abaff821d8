//! Where an object stands once it was applied: a service under the routes
//! that refer to it, a pod under a service that selects it.

use crate::counting::{
    count, count_list, lemma_adopt_count_some, lemma_adopt_list_count, lemma_forest_count_parts,
    lemma_forest_without_clears, lemma_pod_node_weight, lemma_push_count, lemma_update_count,
    lemma_with_child_count, lemma_without_clears, total,
};
use crate::idempotence::{lemma_picks_present, lemma_root_index_push, same_top};
use crate::node::{
    NodeView, ResourceKind, placeholder_namespace, pod_node, route_node, text_or_empty,
};
use crate::objects::{HTTPRouteView, PodView, ServiceView};
use crate::reconcile::{
    adopt, adopt_list, apply_pod, apply_referenced, apply_route, apply_service, chosen, fan_out,
    place_pod, place_service, referenced_among, selected_pods, selects_within, selects_within_list,
    service_subtree, takes, with_child, without_selected,
};
use crate::rules::{
    labels_of, node_references, node_selects, route_references_service, service_selects_pod,
};
use crate::tree::{
    ObjectRef, forest_without, identified, is_root_for, node_is, ref_of, root_index, without,
    without_list,
};
use crate::uniqueness::{
    distinct_pods, lemma_picks_kind, lemma_root_index_bounds, lemma_root_replaced,
    lemma_same_tops_index, lemma_selected_count, lemma_without_selected_clears,
    lemma_without_selected_le, lemma_without_selected_tops, lemma_without_tops,
};
use vstd::prelude::*;

verus! {

/// Whether a node for the object stands directly under `node`.
pub open spec fn has_child(node: NodeView, r: ObjectRef) -> bool {
    exists|j: int| 0 <= j < node.relatives.len() && node_is(#[trigger] node.relatives[j], r)
}

/// Where an object has no node among the first `k` nodes or under them, none
/// of those nodes is it or has it under it.
pub proof fn lemma_count_list_parts(nodes: Seq<NodeView>, k: nat, r: ObjectRef, j: int)
    requires
        0 <= j < k <= nodes.len(),
        count_list(nodes, k, r, false) == 0,
    ensures
        !node_is(nodes[j], r),
        count(nodes[j], r, false) == 0,
    decreases k,
{
    if j < k - 1 {
        lemma_count_list_parts(nodes, (k - 1) as nat, r, j);
    }
}

/// An object that has no node under `node` does not stand directly under it.
pub proof fn lemma_absent_no_child(node: NodeView, r: ObjectRef)
    requires
        count(node, r, false) == 0,
    ensures
        !has_child(node, r),
{
    assert forall|j: int| 0 <= j < node.relatives.len() implies !node_is(
        #[trigger] node.relatives[j],
        r,
    ) by {
        lemma_count_list_parts(node.relatives, node.relatives.len(), r, j);
    }
}

/// Where none of the first `k` nodes is a route that refers to the name,
/// none of them does.
pub proof fn lemma_referenced_parts(nodes: Seq<NodeView>, k: nat, name: Seq<char>, j: int)
    requires
        0 <= j < k <= nodes.len(),
        !referenced_among(nodes, k, name),
    ensures
        !node_references(nodes[j], name),
    decreases k,
{
    if j < k - 1 {
        lemma_referenced_parts(nodes, (k - 1) as nat, name, j);
    }
}

/// Copies attached under the routes change nothing in which routes refer to
/// the name.
pub proof fn lemma_referenced_fan_out(nodes: Seq<NodeView>, k: nat, name: Seq<char>, node: NodeView)
    requires
        k <= nodes.len(),
    ensures
        referenced_among(fan_out(nodes, name, node), k, name) == referenced_among(nodes, k, name),
    decreases k,
{
    if k > 0 {
        lemma_referenced_fan_out(nodes, (k - 1) as nat, name, node);
    }
}

/// Whether routes are among the first `k` nodes goes by those nodes alone.
pub proof fn lemma_referenced_prefix(a: Seq<NodeView>, b: Seq<NodeView>, k: nat, name: Seq<char>)
    requires
        k <= a.len(),
        k <= b.len(),
        forall|j: int| 0 <= j < k ==> a[j] == b[j],
    ensures
        referenced_among(a, k, name) == referenced_among(b, k, name),
    decreases k,
{
    if k > 0 {
        lemma_referenced_prefix(a, b, (k - 1) as nat, name);
    }
}

/// The forest that a service is put into, and the place it is put at: the
/// forest holds no node for the service, and the root of the namespace of
/// the service stands at the place.
pub proof fn lemma_service_ground(forest: Seq<NodeView>, service: ServiceView, pods: Seq<PodView>) -> (ground:
    (Seq<NodeView>, int))
    requires
        identified(service.metadata),
    ensures
        0 <= ground.1 < ground.0.len(),
        is_root_for(ground.0[ground.1], service.metadata.namespace),
        root_index(ground.0, service.metadata.namespace, 0) == ground.1,
        total(ground.0, ref_of(ResourceKind::Service, service.metadata), false) == 0,
        apply_service(forest, service, pods) == ground.0.update(
            ground.1,
            place_service(
                ground.0[ground.1],
                service_subtree(service, pods),
                text_or_empty(service.metadata.name),
            ),
        ),
        forall|j: int|
            0 <= j < pods.len() && service_selects_pod(service, pods[j]) ==> total(
                ground.0,
                ref_of(ResourceKind::Pod, #[trigger] pods[j].metadata),
                false,
            ) == 0,
        ground.0.len() >= forest.len(),
        forall|j: int|
            0 <= j < forest.len() ==> #[trigger] ground.0[j] == without_selected(
                forest_without(forest, ref_of(ResourceKind::Service, service.metadata)),
                service,
                pods,
                pods.len(),
            )[j],
        ground.1 >= forest.len() ==> ground.0[ground.1] == placeholder_namespace(
            text_or_empty(service.metadata.namespace),
        ),
{
    let r = ref_of(ResourceKind::Service, service.metadata);
    let namespace = service.metadata.namespace;
    let removed = forest_without(forest, r);
    let cleared = without_selected(removed, service, pods, pods.len());
    let i = root_index(cleared, namespace, 0);
    lemma_root_index_bounds(cleared, namespace, 0);
    let placeholder = placeholder_namespace(text_or_empty(namespace));
    let rooted = if i >= cleared.len() {
        cleared.push(placeholder)
    } else {
        cleared
    };
    lemma_forest_without_clears(forest, forest.len(), r, false);
    lemma_without_selected_le(removed, service, pods, pods.len(), r, false);
    if i >= cleared.len() {
        lemma_push_count(cleared, placeholder, r, false);
        lemma_root_index_push(cleared, placeholder, namespace, 0);
    }
    assert forall|j: int|
        0 <= j < pods.len() && service_selects_pod(service, pods[j]) implies total(
        rooted,
        ref_of(ResourceKind::Pod, #[trigger] pods[j].metadata),
        false,
    ) == 0 by {
        let q = ref_of(ResourceKind::Pod, pods[j].metadata);
        lemma_picks_present(service, pods, pods.len(), j);
        lemma_without_selected_clears(removed, service, pods, pods.len(), q, false);
        if i >= cleared.len() {
            lemma_push_count(cleared, placeholder, q, false);
        }
    }
    (rooted, i)
}

/// Reference correctness, for the service applied: once a service was
/// applied, it stands under a route of its namespace exactly if the route
/// refers to it, and directly under the root of its namespace exactly if no
/// route there refers to it.
pub proof fn law_service_under_routes(forest: Seq<NodeView>, service: ServiceView, pods: Seq<PodView>)
    requires
        identified(service.metadata),
    ensures
        ({
            let after = apply_service(forest, service, pods);
            let i = root_index(after, service.metadata.namespace, 0);
            let r = ref_of(ResourceKind::Service, service.metadata);
            let name = text_or_empty(service.metadata.name);
            &&& 0 <= i < after.len()
            &&& forall|j: int|
                0 <= j < after[i].relatives.len() && (#[trigger] after[i].relatives[j]).kind
                    == ResourceKind::HTTPRoute ==> (has_child(after[i].relatives[j], r)
                    <==> node_references(after[i].relatives[j], name))
            &&& has_child(after[i], r) <==> !referenced_among(
                after[i].relatives,
                after[i].relatives.len(),
                name,
            )
        }),
{
    let after = apply_service(forest, service, pods);
    let r = ref_of(ResourceKind::Service, service.metadata);
    let name = text_or_empty(service.metadata.name);
    let node = service_subtree(service, pods);
    let (ground, i) = lemma_service_ground(forest, service, pods);
    let root = ground[i];
    let placed = place_service(root, node, name);
    lemma_root_replaced(ground, i, placed, service.metadata.namespace, 0);
    lemma_forest_count_parts(ground, ground.len(), r, false, i);
    let below = root.relatives;
    if referenced_among(below, below.len(), name) {
        lemma_referenced_fan_out(below, below.len(), name, node);
        assert forall|j: int|
            0 <= j < placed.relatives.len() && (#[trigger] placed.relatives[j]).kind
                == ResourceKind::HTTPRoute implies (has_child(placed.relatives[j], r)
            <==> node_references(placed.relatives[j], name)) by {
            lemma_count_list_parts(below, below.len(), r, j);
            if node_references(below[j], name) {
                let grown = with_child(below[j], node);
                assert(node_is(grown.relatives[below[j].relatives.len() as int], r));
            } else {
                lemma_absent_no_child(below[j], r);
            }
        }
        assert forall|j: int| 0 <= j < placed.relatives.len() implies !node_is(
            #[trigger] placed.relatives[j],
            r,
        ) by {
            lemma_count_list_parts(below, below.len(), r, j);
        }
    } else {
        lemma_referenced_prefix(placed.relatives, below, below.len(), name);
        assert forall|j: int|
            0 <= j < placed.relatives.len() && (#[trigger] placed.relatives[j]).kind
                == ResourceKind::HTTPRoute implies (has_child(placed.relatives[j], r)
            <==> node_references(placed.relatives[j], name)) by {
            if j < below.len() {
                lemma_count_list_parts(below, below.len(), r, j);
                lemma_referenced_parts(below, below.len(), name, j);
                lemma_absent_no_child(below[j], r);
            }
        }
    }
}

// ---------------------------------------------------------------------------
// What stands under a service that was applied

/// Whether every node under `node` that stands for the object is `same`.
pub open spec fn all_are(node: NodeView, r: ObjectRef, same: NodeView) -> bool
    decreases node, 0nat,
{
    all_are_list(node.relatives, node.relatives.len(), r, same)
}

/// Whether every node among the first `k` nodes, or under them, that stands
/// for the object is `same`.
pub open spec fn all_are_list(nodes: Seq<NodeView>, k: nat, r: ObjectRef, same: NodeView) -> bool
    decreases nodes, k,
{
    if k == 0 || k > nodes.len() {
        true
    } else {
        all_are_list(nodes, (k - 1) as nat, r, same) && (node_is(nodes[k - 1], r) ==> nodes[k - 1]
            == same) && all_are(nodes[k - 1], r, same)
    }
}

/// Whether every node in the forest that stands for the object is `same`,
/// the roots aside.
pub open spec fn forest_all_are(forest: Seq<NodeView>, r: ObjectRef, same: NodeView) -> bool {
    forall|j: int| 0 <= j < forest.len() ==> all_are(#[trigger] forest[j], r, same)
}

/// Where an object has no node, all its nodes are whatever one likes.
pub proof fn lemma_absent_all_are(node: NodeView, r: ObjectRef, same: NodeView)
    requires
        count(node, r, false) == 0,
    ensures
        all_are(node, r, same),
    decreases node, 0nat,
{
    lemma_absent_all_are_list(node.relatives, node.relatives.len(), r, same);
}

/// Where an object has no node among the first `k` nodes, all its nodes
/// there are whatever one likes.
pub proof fn lemma_absent_all_are_list(nodes: Seq<NodeView>, k: nat, r: ObjectRef, same: NodeView)
    requires
        k <= nodes.len(),
        count_list(nodes, k, r, false) == 0,
    ensures
        all_are_list(nodes, k, r, same),
    decreases nodes, k,
{
    if k > 0 {
        lemma_absent_all_are_list(nodes, (k - 1) as nat, r, same);
        lemma_absent_all_are(nodes[k - 1], r, same);
    }
}

/// Whether all are the same among the first `k` nodes goes by those nodes
/// alone.
pub proof fn lemma_all_are_prefix(
    a: Seq<NodeView>,
    b: Seq<NodeView>,
    k: nat,
    r: ObjectRef,
    same: NodeView,
)
    requires
        k <= a.len(),
        k <= b.len(),
        forall|j: int| 0 <= j < k ==> a[j] == b[j],
    ensures
        all_are_list(a, k, r, same) == all_are_list(b, k, r, same),
    decreases k,
{
    if k > 0 {
        lemma_all_are_prefix(a, b, (k - 1) as nat, r, same);
    }
}

/// A node attached under another keeps all the same, if it is the same
/// itself and all under it are.
pub proof fn lemma_with_child_all_are(node: NodeView, child: NodeView, r: ObjectRef, same: NodeView)
    requires
        all_are(node, r, same),
        node_is(child, r) ==> child == same,
        all_are(child, r, same),
    ensures
        all_are(with_child(node, child), r, same),
{
    lemma_all_are_prefix(
        node.relatives.push(child),
        node.relatives,
        node.relatives.len(),
        r,
        same,
    );
}

/// Copies attached under routes, where the object had no node, are all the
/// same.
pub proof fn lemma_fan_out_all_are(
    nodes: Seq<NodeView>,
    k: nat,
    name: Seq<char>,
    node: NodeView,
    r: ObjectRef,
)
    requires
        k <= nodes.len(),
        count_list(nodes, k, r, false) == 0,
        all_are(node, r, node),
    ensures
        all_are_list(fan_out(nodes, name, node), k, r, node),
    decreases k,
{
    if k > 0 {
        lemma_fan_out_all_are(nodes, (k - 1) as nat, name, node, r);
        lemma_absent_all_are(nodes[k - 1], r, node);
        if node_references(nodes[k - 1], name) {
            lemma_with_child_all_are(nodes[k - 1], node, r, node);
        }
    }
}

/// The nodes of the selected pods hold no node for anything but a pod.
pub proof fn lemma_selected_kind(service: ServiceView, pods: Seq<PodView>, k: nat, r: ObjectRef)
    requires
        k <= pods.len(),
        r.kind != ResourceKind::Pod,
    ensures
        count_list(
            selected_pods(service, pods, k),
            selected_pods(service, pods, k).len(),
            r,
            false,
        ) == 0,
{
    lemma_selected_count(service, pods, k, r, false);
    lemma_picks_kind(service, pods, k, r);
}

/// Each node among the selected pods is the node of a pod that the service
/// selects.
pub proof fn lemma_selected_origin(service: ServiceView, pods: Seq<PodView>, k: nat, m: int) -> (j:
    int)
    requires
        k <= pods.len(),
        0 <= m < selected_pods(service, pods, k).len(),
    ensures
        0 <= j < k,
        service_selects_pod(service, pods[j]),
        selected_pods(service, pods, k)[m] == pod_node(pods[j]),
    decreases k,
{
    let rest = selected_pods(service, pods, (k - 1) as nat);
    if service_selects_pod(service, pods[k - 1]) && m == rest.len() {
        k - 1
    } else {
        lemma_selected_origin(service, pods, (k - 1) as nat, m)
    }
}

/// The node of each pod that the service selects is among the selected
/// pods.
pub proof fn lemma_selected_member(service: ServiceView, pods: Seq<PodView>, k: nat, j: int) -> (m:
    int)
    requires
        0 <= j < k <= pods.len(),
        service_selects_pod(service, pods[j]),
    ensures
        0 <= m < selected_pods(service, pods, k).len(),
        selected_pods(service, pods, k)[m] == pod_node(pods[j]),
    decreases k,
{
    let rest = selected_pods(service, pods, (k - 1) as nat);
    if j == k - 1 {
        rest.len() as int
    } else {
        lemma_selected_member(service, pods, (k - 1) as nat, j)
    }
}

/// Selector correctness, for the service applied: once a service was
/// applied, every node for it in the forest is the same, and under it
/// stand the nodes of exactly those known pods that the service selects.
/// It is taken that no two of the known pods are the same object.
pub proof fn law_service_holds_selected(
    forest: Seq<NodeView>,
    service: ServiceView,
    pods: Seq<PodView>,
)
    requires
        identified(service.metadata),
        distinct_pods(pods),
    ensures
        forest_all_are(
            apply_service(forest, service, pods),
            ref_of(ResourceKind::Service, service.metadata),
            service_subtree(service, pods),
        ),
        forall|j: int|
            0 <= j < pods.len() ==> (has_child(
                service_subtree(service, pods),
                ref_of(ResourceKind::Pod, #[trigger] pods[j].metadata),
            ) <==> service_selects_pod(service, pods[j])),
{
    let after = apply_service(forest, service, pods);
    let r = ref_of(ResourceKind::Service, service.metadata);
    let name = text_or_empty(service.metadata.name);
    let node = service_subtree(service, pods);
    let (ground, i) = lemma_service_ground(forest, service, pods);
    lemma_selected_kind(service, pods, pods.len(), r);
    lemma_absent_all_are(node, r, node);
    assert forall|j: int| 0 <= j < after.len() implies all_are(#[trigger] after[j], r, node) by {
        lemma_forest_count_parts(ground, ground.len(), r, false, j);
        lemma_absent_all_are(ground[j], r, node);
        if j == i {
            let root = ground[i];
            if referenced_among(root.relatives, root.relatives.len(), name) {
                lemma_fan_out_all_are(root.relatives, root.relatives.len(), name, node, r);
            } else {
                lemma_with_child_all_are(root, node, r, node);
            }
        }
    }
    assert forall|j: int| 0 <= j < pods.len() implies (has_child(
        node,
        ref_of(ResourceKind::Pod, #[trigger] pods[j].metadata),
    ) <==> service_selects_pod(service, pods[j])) by {
        let q = ref_of(ResourceKind::Pod, pods[j].metadata);
        if service_selects_pod(service, pods[j]) {
            let m = lemma_selected_member(service, pods, pods.len(), j);
        }
        if has_child(node, q) {
            let m = choose|m: int| 0 <= m < node.relatives.len() && node_is(
                #[trigger] node.relatives[m],
                q,
            );
            lemma_selected_origin(service, pods, pods.len(), m);
        }
    }
}

// ---------------------------------------------------------------------------
// Where a pod stands once it was applied

/// Whether every node under `node` that has the object directly under it is
/// a service that selects the namespace and labels given.
pub open spec fn well_held(
    node: NodeView,
    r: ObjectRef,
    namespace: Option<Seq<char>>,
    labels: Map<Seq<char>, Seq<char>>,
) -> bool
    decreases node, 0nat,
{
    well_held_list(node.relatives, node.relatives.len(), r, namespace, labels)
}

/// Whether every node among the first `k` nodes, or under them, that has
/// the object directly under it is a service that selects the namespace and
/// labels given.
pub open spec fn well_held_list(
    nodes: Seq<NodeView>,
    k: nat,
    r: ObjectRef,
    namespace: Option<Seq<char>>,
    labels: Map<Seq<char>, Seq<char>>,
) -> bool
    decreases nodes, k,
{
    if k == 0 || k > nodes.len() {
        true
    } else {
        well_held_list(nodes, (k - 1) as nat, r, namespace, labels) && (has_child(nodes[k - 1], r)
            ==> node_selects(nodes[k - 1], namespace, labels)) && well_held(
            nodes[k - 1],
            r,
            namespace,
            labels,
        )
    }
}

/// Where an object has no node, no node has it under it.
pub proof fn lemma_absent_well_held(
    node: NodeView,
    r: ObjectRef,
    namespace: Option<Seq<char>>,
    labels: Map<Seq<char>, Seq<char>>,
)
    requires
        count(node, r, false) == 0,
    ensures
        well_held(node, r, namespace, labels),
    decreases node, 0nat,
{
    lemma_absent_well_held_list(node.relatives, node.relatives.len(), r, namespace, labels);
}

/// Where an object has no node among the first `k` nodes, none of them has
/// it under it.
pub proof fn lemma_absent_well_held_list(
    nodes: Seq<NodeView>,
    k: nat,
    r: ObjectRef,
    namespace: Option<Seq<char>>,
    labels: Map<Seq<char>, Seq<char>>,
)
    requires
        k <= nodes.len(),
        count_list(nodes, k, r, false) == 0,
    ensures
        well_held_list(nodes, k, r, namespace, labels),
    decreases nodes, k,
{
    if k > 0 {
        lemma_absent_well_held_list(nodes, (k - 1) as nat, r, namespace, labels);
        lemma_absent_well_held(nodes[k - 1], r, namespace, labels);
        lemma_absent_no_child(nodes[k - 1], r);
    }
}

/// Whether the first `k` nodes hold the object well goes by those nodes
/// alone.
pub proof fn lemma_well_held_prefix(
    a: Seq<NodeView>,
    b: Seq<NodeView>,
    k: nat,
    r: ObjectRef,
    namespace: Option<Seq<char>>,
    labels: Map<Seq<char>, Seq<char>>,
)
    requires
        k <= a.len(),
        k <= b.len(),
        forall|j: int| 0 <= j < k ==> a[j] == b[j],
    ensures
        well_held_list(a, k, r, namespace, labels) == well_held_list(b, k, r, namespace, labels),
    decreases k,
{
    if k > 0 {
        lemma_well_held_prefix(a, b, (k - 1) as nat, r, namespace, labels);
    }
}

/// Putting a pod in changes what stands under a node, not the node.
pub proof fn lemma_adopt_top(
    node: NodeView,
    pod: PodView,
    labels: Map<Seq<char>, Seq<char>>,
    name: Seq<char>,
)
    ensures
        same_top(adopt(node, pod, labels, name), node),
{
}

/// Putting a pod in among the first `k` nodes changes what stands under
/// them, not the nodes.
pub proof fn lemma_adopt_list_tops(
    nodes: Seq<NodeView>,
    k: nat,
    pod: PodView,
    labels: Map<Seq<char>, Seq<char>>,
    name: Seq<char>,
    m: int,
)
    requires
        0 <= m < k <= nodes.len(),
    ensures
        adopt_list(nodes, k, pod, labels, name).len() == k,
        same_top(adopt_list(nodes, k, pod, labels, name)[m], nodes[m]),
    decreases k,
{
    let r = ref_of(ResourceKind::Pod, pod.metadata);
    lemma_adopt_list_count(nodes, k, pod, labels, name, r, false);
    lemma_adopt_list_count(nodes, (k - 1) as nat, pod, labels, name, r, false);
    if m < k - 1 {
        lemma_adopt_list_tops(nodes, (k - 1) as nat, pod, labels, name, m);
    } else {
        lemma_adopt_top(nodes[k - 1], pod, labels, name);
    }
}

/// Under a node that does not take the pod, an object stands directly
/// after the pod was put in only if it stood there before.
pub proof fn lemma_adopt_no_child(
    node: NodeView,
    pod: PodView,
    labels: Map<Seq<char>, Seq<char>>,
    name: Seq<char>,
    r: ObjectRef,
)
    requires
        !takes(node, pod, labels, name),
        !has_child(node, r),
    ensures
        !has_child(adopt(node, pod, labels, name), r),
{
    let after = adopt(node, pod, labels, name);
    lemma_adopt_list_count(node.relatives, node.relatives.len(), pod, labels, name, r, false);
    assert forall|j: int| 0 <= j < after.relatives.len() implies !node_is(
        #[trigger] after.relatives[j],
        r,
    ) by {
        lemma_adopt_list_tops(node.relatives, node.relatives.len(), pod, labels, name, j);
    }
}

/// A pod that had no node under `node` stands, once it was put in, only
/// under a service that selects it.
pub proof fn lemma_adopt_well_held(
    node: NodeView,
    pod: PodView,
    labels: Map<Seq<char>, Seq<char>>,
    name: Seq<char>,
)
    requires
        count(node, ref_of(ResourceKind::Pod, pod.metadata), false) == 0,
    ensures
        well_held(
            adopt(node, pod, labels, name),
            ref_of(ResourceKind::Pod, pod.metadata),
            pod.metadata.namespace,
            labels,
        ),
    decreases node, 0nat,
{
    let r = ref_of(ResourceKind::Pod, pod.metadata);
    let namespace = pod.metadata.namespace;
    let below = adopt_list(node.relatives, node.relatives.len(), pod, labels, name);
    lemma_adopt_list_well_held(node.relatives, node.relatives.len(), pod, labels, name);
    if takes(node, pod, labels, name) {
        lemma_well_held_prefix(below.push(pod_node(pod)), below, below.len(), r, namespace, labels);
        assert(well_held(pod_node(pod), r, namespace, labels));
    }
}

/// The same, for the first `k` nodes of a list.
pub proof fn lemma_adopt_list_well_held(
    nodes: Seq<NodeView>,
    k: nat,
    pod: PodView,
    labels: Map<Seq<char>, Seq<char>>,
    name: Seq<char>,
)
    requires
        k <= nodes.len(),
        count_list(nodes, k, ref_of(ResourceKind::Pod, pod.metadata), false) == 0,
    ensures
        adopt_list(nodes, k, pod, labels, name).len() == k,
        well_held_list(
            adopt_list(nodes, k, pod, labels, name),
            k,
            ref_of(ResourceKind::Pod, pod.metadata),
            pod.metadata.namespace,
            labels,
        ),
    decreases nodes, k,
{
    let r = ref_of(ResourceKind::Pod, pod.metadata);
    let namespace = pod.metadata.namespace;
    if k > 0 {
        let rest = adopt_list(nodes, (k - 1) as nat, pod, labels, name);
        let last = adopt(nodes[k - 1], pod, labels, name);
        lemma_adopt_list_well_held(nodes, (k - 1) as nat, pod, labels, name);
        lemma_well_held_prefix(rest.push(last), rest, rest.len(), r, namespace, labels);
        lemma_absent_no_child(nodes[k - 1], r);
        lemma_adopt_well_held(nodes[k - 1], pod, labels, name);
        lemma_adopt_top(nodes[k - 1], pod, labels, name);
        if !takes(nodes[k - 1], pod, labels, name) {
            lemma_adopt_no_child(nodes[k - 1], pod, labels, name, r);
        }
    }
}

/// Whether every node under `node` that takes the pod has the node of the
/// pod as the last node under it.
pub open spec fn all_take(
    node: NodeView,
    pod: PodView,
    labels: Map<Seq<char>, Seq<char>>,
    name: Seq<char>,
) -> bool
    decreases node, 0nat,
{
    all_take_list(node.relatives, node.relatives.len(), pod, labels, name)
}

/// Whether every node among the first `k` nodes, or under them, that takes
/// the pod has the node of the pod as the last node under it.
pub open spec fn all_take_list(
    nodes: Seq<NodeView>,
    k: nat,
    pod: PodView,
    labels: Map<Seq<char>, Seq<char>>,
    name: Seq<char>,
) -> bool
    decreases nodes, k,
{
    if k == 0 || k > nodes.len() {
        true
    } else {
        all_take_list(nodes, (k - 1) as nat, pod, labels, name) && (takes(
            nodes[k - 1],
            pod,
            labels,
            name,
        ) ==> nodes[k - 1].relatives.len() > 0 && nodes[k - 1].relatives.last() == pod_node(pod))
            && all_take(nodes[k - 1], pod, labels, name)
    }
}

/// Whether that holds of the first `k` nodes goes by those nodes alone.
pub proof fn lemma_all_take_prefix(
    x: Seq<NodeView>,
    y: Seq<NodeView>,
    k: nat,
    pod: PodView,
    labels: Map<Seq<char>, Seq<char>>,
    name: Seq<char>,
)
    requires
        k <= x.len(),
        k <= y.len(),
        forall|j: int| 0 <= j < k ==> x[j] == y[j],
    ensures
        all_take_list(x, k, pod, labels, name) == all_take_list(y, k, pod, labels, name),
    decreases k,
{
    if k > 0 {
        lemma_all_take_prefix(x, y, (k - 1) as nat, pod, labels, name);
    }
}

/// Once a pod was put in, every copy of the service that takes it has the
/// node of the pod as the last node under it.
pub proof fn lemma_adopt_all_take(
    node: NodeView,
    pod: PodView,
    labels: Map<Seq<char>, Seq<char>>,
    name: Seq<char>,
)
    ensures
        all_take(adopt(node, pod, labels, name), pod, labels, name),
        takes(node, pod, labels, name) ==> adopt(node, pod, labels, name).relatives.len() > 0
            && adopt(node, pod, labels, name).relatives.last() == pod_node(pod),
    decreases node, 0nat,
{
    let below = adopt_list(node.relatives, node.relatives.len(), pod, labels, name);
    lemma_adopt_list_all_take(node.relatives, node.relatives.len(), pod, labels, name);
    if takes(node, pod, labels, name) {
        lemma_all_take_prefix(below.push(pod_node(pod)), below, below.len(), pod, labels, name);
        assert(all_take(pod_node(pod), pod, labels, name));
    }
}

/// The same, for the first `k` nodes of a list.
pub proof fn lemma_adopt_list_all_take(
    nodes: Seq<NodeView>,
    k: nat,
    pod: PodView,
    labels: Map<Seq<char>, Seq<char>>,
    name: Seq<char>,
)
    requires
        k <= nodes.len(),
    ensures
        adopt_list(nodes, k, pod, labels, name).len() == k,
        all_take_list(adopt_list(nodes, k, pod, labels, name), k, pod, labels, name),
    decreases nodes, k,
{
    if k > 0 {
        let rest = adopt_list(nodes, (k - 1) as nat, pod, labels, name);
        let last = adopt(nodes[k - 1], pod, labels, name);
        lemma_adopt_list_all_take(nodes, (k - 1) as nat, pod, labels, name);
        lemma_all_take_prefix(rest.push(last), rest, rest.len(), pod, labels, name);
        lemma_adopt_all_take(nodes[k - 1], pod, labels, name);
        lemma_adopt_top(nodes[k - 1], pod, labels, name);
    }
}

/// What putting a pod under the root of its namespace gives, where the pod
/// had no node under the root: the pod has a node there, every node that
/// has it directly under it is a service that selects it or the root, and
/// it stands directly under the root exactly if no service selects it.
pub proof fn lemma_place_pod(root: NodeView, pod: PodView)
    requires
        root.kind == ResourceKind::Namespace,
        count(root, ref_of(ResourceKind::Pod, pod.metadata), false) == 0,
    ensures
        same_top(place_pod(root, pod), root),
        count(place_pod(root, pod), ref_of(ResourceKind::Pod, pod.metadata), false) >= 1,
        well_held(
            place_pod(root, pod),
            ref_of(ResourceKind::Pod, pod.metadata),
            pod.metadata.namespace,
            labels_of(pod.metadata),
        ),
        has_child(place_pod(root, pod), ref_of(ResourceKind::Pod, pod.metadata)) <==> chosen(
            root,
            pod.metadata.namespace,
            labels_of(pod.metadata),
        ) is None,
{
    let r = ref_of(ResourceKind::Pod, pod.metadata);
    let namespace = pod.metadata.namespace;
    let labels = labels_of(pod.metadata);
    lemma_pod_node_weight(pod, r, false);
    lemma_absent_no_child(root, r);
    match chosen(root, namespace, labels) {
        Some(name) => {
            lemma_adopt_count_some(root, pod, labels, name);
            lemma_adopt_well_held(root, pod, labels, name);
            lemma_adopt_no_child(root, pod, labels, name, r);
        },
        None => {
            let grown = root.relatives.push(pod_node(pod));
            lemma_with_child_count(root, pod_node(pod), r, false);
            lemma_absent_well_held(root, r, namespace, labels);
            lemma_well_held_prefix(grown, root.relatives, root.relatives.len(), r, namespace, labels);
            assert(well_held(pod_node(pod), r, namespace, labels));
        },
    }
}

/// Selector correctness, for the pod applied: once a pod was applied whose
/// namespace has a root, the pod has a node, and only under that root.
/// Where a service under the root selects the pod, the pod stands as the
/// last node under every copy of the first service that does; where none
/// does, it stands as the last node directly under the root. Under a node
/// that does not select it, the root aside, it does not stand.
pub proof fn law_pod_under_selector(forest: Seq<NodeView>, pod: PodView)
    requires
        identified(pod.metadata),
        root_index(forest, pod.metadata.namespace, 0) < forest.len(),
    ensures
        ({
            let after = apply_pod(forest, pod);
            let r = ref_of(ResourceKind::Pod, pod.metadata);
            let namespace = pod.metadata.namespace;
            let labels = labels_of(pod.metadata);
            let i = root_index(forest, namespace, 0);
            let before = forest_without(forest, r)[i];
            &&& after.len() == forest.len()
            &&& 0 <= i < forest.len()
            &&& root_index(after, namespace, 0) == i
            &&& total(after, r, false) >= 1
            &&& total(after, r, false) == count(after[i], r, false)
            &&& well_held(after[i], r, namespace, labels)
            &&& has_child(after[i], r) <==> !selects_within(before, namespace, labels)
            &&& match chosen(before, namespace, labels) {
                Some(name) => all_take(after[i], pod, labels, name),
                None => after[i].relatives.last() == pod_node(pod),
            }
        }),
{
    let after = apply_pod(forest, pod);
    let r = ref_of(ResourceKind::Pod, pod.metadata);
    let namespace = pod.metadata.namespace;
    let labels = labels_of(pod.metadata);
    let cleared = forest_without(forest, r);
    lemma_root_index_bounds(forest, namespace, 0);
    lemma_without_tops(forest, r);
    lemma_same_tops_index(forest, cleared, namespace, 0);
    let i = root_index(cleared, namespace, 0);
    let root = cleared[i];
    let placed = place_pod(root, pod);
    lemma_forest_without_clears(forest, forest.len(), r, false);
    lemma_forest_count_parts(cleared, cleared.len(), r, false, i);
    lemma_place_pod(root, pod);
    lemma_root_replaced(cleared, i, placed, namespace, 0);
    lemma_update_count(cleared, i, placed, cleared.len(), r, false);
    crate::reconcile::lemma_chosen_selects(root, namespace, labels);
    match chosen(root, namespace, labels) {
        Some(name) => {
            lemma_adopt_all_take(root, pod, labels, name);
        },
        None => {},
    }
}

// ---------------------------------------------------------------------------
// A pod that a service no longer selects

/// Whether no node under `node` that stands for the object `a` is a service
/// that selects the namespace and labels given.
pub open spec fn none_selects(
    node: NodeView,
    a: ObjectRef,
    namespace: Option<Seq<char>>,
    labels: Map<Seq<char>, Seq<char>>,
) -> bool
    decreases node, 0nat,
{
    none_selects_list(node.relatives, node.relatives.len(), a, namespace, labels)
}

/// Whether no node among the first `k` nodes, or under them, that stands
/// for the object `a` is a service that selects the namespace and labels
/// given.
pub open spec fn none_selects_list(
    nodes: Seq<NodeView>,
    k: nat,
    a: ObjectRef,
    namespace: Option<Seq<char>>,
    labels: Map<Seq<char>, Seq<char>>,
) -> bool
    decreases nodes, k,
{
    if k == 0 || k > nodes.len() {
        true
    } else {
        none_selects_list(nodes, (k - 1) as nat, a, namespace, labels) && (node_is(nodes[k - 1], a)
            ==> !node_selects(nodes[k - 1], namespace, labels)) && none_selects(
            nodes[k - 1],
            a,
            namespace,
            labels,
        )
    }
}

/// Whether some node under `node` stands for the object `a` and has the
/// object `b` directly under it.
pub open spec fn nested(node: NodeView, a: ObjectRef, b: ObjectRef) -> bool
    decreases node, 0nat,
{
    nested_list(node.relatives, node.relatives.len(), a, b)
}

/// Whether some node among the first `k` nodes, or under them, stands for
/// the object `a` and has the object `b` directly under it.
pub open spec fn nested_list(nodes: Seq<NodeView>, k: nat, a: ObjectRef, b: ObjectRef) -> bool
    decreases nodes, k,
{
    if k == 0 || k > nodes.len() {
        false
    } else {
        nested_list(nodes, (k - 1) as nat, a, b) || (node_is(nodes[k - 1], a) && has_child(
            nodes[k - 1],
            b,
        )) || nested(nodes[k - 1], a, b)
    }
}

/// Whether somewhere in the forest a node for the object `a`, a root or
/// not, has the object `b` directly under it.
pub open spec fn stands_under(forest: Seq<NodeView>, a: ObjectRef, b: ObjectRef) -> bool {
    exists|j: int|
        0 <= j < forest.len() && ((node_is(#[trigger] forest[j], a) && has_child(forest[j], b))
            || nested(forest[j], a, b))
}

/// Where the object `b` stands only under services that select what `a`
/// does not, `b` does not stand under `a`.
pub proof fn lemma_not_nested(
    node: NodeView,
    a: ObjectRef,
    b: ObjectRef,
    namespace: Option<Seq<char>>,
    labels: Map<Seq<char>, Seq<char>>,
)
    requires
        well_held(node, b, namespace, labels),
        none_selects(node, a, namespace, labels),
    ensures
        !nested(node, a, b),
    decreases node, 0nat,
{
    lemma_not_nested_list(node.relatives, node.relatives.len(), a, b, namespace, labels);
}

/// Where the object `b` stands only under services that select what `a`
/// does not, `b` does not stand under `a` among the first `k` nodes.
pub proof fn lemma_not_nested_list(
    nodes: Seq<NodeView>,
    k: nat,
    a: ObjectRef,
    b: ObjectRef,
    namespace: Option<Seq<char>>,
    labels: Map<Seq<char>, Seq<char>>,
)
    requires
        k <= nodes.len(),
        well_held_list(nodes, k, b, namespace, labels),
        none_selects_list(nodes, k, a, namespace, labels),
    ensures
        !nested_list(nodes, k, a, b),
    decreases nodes, k,
{
    if k > 0 {
        lemma_not_nested_list(nodes, (k - 1) as nat, a, b, namespace, labels);
        lemma_not_nested(nodes[k - 1], a, b, namespace, labels);
    }
}

/// Where an object has no node, none of its nodes selects anything.
pub proof fn lemma_absent_none_selects(
    node: NodeView,
    a: ObjectRef,
    namespace: Option<Seq<char>>,
    labels: Map<Seq<char>, Seq<char>>,
)
    requires
        count(node, a, false) == 0,
    ensures
        none_selects(node, a, namespace, labels),
    decreases node, 0nat,
{
    lemma_absent_none_selects_list(node.relatives, node.relatives.len(), a, namespace, labels);
}

/// Where an object has no node among the first `k` nodes, none of its nodes
/// there selects anything.
pub proof fn lemma_absent_none_selects_list(
    nodes: Seq<NodeView>,
    k: nat,
    a: ObjectRef,
    namespace: Option<Seq<char>>,
    labels: Map<Seq<char>, Seq<char>>,
)
    requires
        k <= nodes.len(),
        count_list(nodes, k, a, false) == 0,
    ensures
        none_selects_list(nodes, k, a, namespace, labels),
    decreases nodes, k,
{
    if k > 0 {
        lemma_absent_none_selects_list(nodes, (k - 1) as nat, a, namespace, labels);
        lemma_absent_none_selects(nodes[k - 1], a, namespace, labels);
    }
}

/// Whether none selects among the first `k` nodes goes by those nodes
/// alone.
pub proof fn lemma_none_selects_prefix(
    x: Seq<NodeView>,
    y: Seq<NodeView>,
    k: nat,
    a: ObjectRef,
    namespace: Option<Seq<char>>,
    labels: Map<Seq<char>, Seq<char>>,
)
    requires
        k <= x.len(),
        k <= y.len(),
        forall|j: int| 0 <= j < k ==> x[j] == y[j],
    ensures
        none_selects_list(x, k, a, namespace, labels) == none_selects_list(
            y,
            k,
            a,
            namespace,
            labels,
        ),
    decreases k,
{
    if k > 0 {
        lemma_none_selects_prefix(x, y, (k - 1) as nat, a, namespace, labels);
    }
}

/// A node attached under another keeps it that none selects, if it does not
/// select itself, being a node for the object, and none under it does.
pub proof fn lemma_with_child_none_selects(
    node: NodeView,
    child: NodeView,
    a: ObjectRef,
    namespace: Option<Seq<char>>,
    labels: Map<Seq<char>, Seq<char>>,
)
    requires
        none_selects(node, a, namespace, labels),
        node_is(child, a) ==> !node_selects(child, namespace, labels),
        none_selects(child, a, namespace, labels),
    ensures
        none_selects(with_child(node, child), a, namespace, labels),
{
    lemma_none_selects_prefix(
        node.relatives.push(child),
        node.relatives,
        node.relatives.len(),
        a,
        namespace,
        labels,
    );
}

/// Copies attached under routes keep it that none selects.
pub proof fn lemma_fan_out_none_selects(
    nodes: Seq<NodeView>,
    k: nat,
    name: Seq<char>,
    node: NodeView,
    a: ObjectRef,
    namespace: Option<Seq<char>>,
    labels: Map<Seq<char>, Seq<char>>,
)
    requires
        k <= nodes.len(),
        none_selects_list(nodes, k, a, namespace, labels),
        node_is(node, a) ==> !node_selects(node, namespace, labels),
        none_selects(node, a, namespace, labels),
    ensures
        none_selects_list(fan_out(nodes, name, node), k, a, namespace, labels),
    decreases k,
{
    if k > 0 {
        lemma_fan_out_none_selects(nodes, (k - 1) as nat, name, node, a, namespace, labels);
        if node_references(nodes[k - 1], name) {
            lemma_with_child_none_selects(nodes[k - 1], node, a, namespace, labels);
        }
    }
}

/// Taking an object out keeps it that none selects.
pub proof fn lemma_without_none_selects(
    node: NodeView,
    gone: ObjectRef,
    a: ObjectRef,
    namespace: Option<Seq<char>>,
    labels: Map<Seq<char>, Seq<char>>,
)
    requires
        none_selects(node, a, namespace, labels),
    ensures
        none_selects(without(node, gone), a, namespace, labels),
    decreases node, 0nat,
{
    lemma_without_list_none_selects(
        node.relatives,
        node.relatives.len(),
        gone,
        a,
        namespace,
        labels,
    );
}

/// Taking an object out of a list keeps it that none selects.
pub proof fn lemma_without_list_none_selects(
    nodes: Seq<NodeView>,
    k: nat,
    gone: ObjectRef,
    a: ObjectRef,
    namespace: Option<Seq<char>>,
    labels: Map<Seq<char>, Seq<char>>,
)
    requires
        k <= nodes.len(),
        none_selects_list(nodes, k, a, namespace, labels),
    ensures
        none_selects_list(
            without_list(nodes, k, gone),
            without_list(nodes, k, gone).len(),
            a,
            namespace,
            labels,
        ),
    decreases nodes, k,
{
    if k > 0 {
        let rest = without_list(nodes, (k - 1) as nat, gone);
        lemma_without_list_none_selects(nodes, (k - 1) as nat, gone, a, namespace, labels);
        if !node_is(nodes[k - 1], gone) {
            let kept = without(nodes[k - 1], gone);
            lemma_without_none_selects(nodes[k - 1], gone, a, namespace, labels);
            lemma_none_selects_prefix(rest.push(kept), rest, rest.len(), a, namespace, labels);
        }
    }
}

/// Putting a pod in keeps it that none of the nodes for a service selects.
pub proof fn lemma_adopt_none_selects(
    node: NodeView,
    pod: PodView,
    labels: Map<Seq<char>, Seq<char>>,
    name: Seq<char>,
    a: ObjectRef,
    namespace: Option<Seq<char>>,
    wanted: Map<Seq<char>, Seq<char>>,
)
    requires
        none_selects(node, a, namespace, wanted),
        a.kind != ResourceKind::Pod,
    ensures
        none_selects(adopt(node, pod, labels, name), a, namespace, wanted),
    decreases node, 0nat,
{
    let below = adopt_list(node.relatives, node.relatives.len(), pod, labels, name);
    lemma_adopt_list_none_selects(
        node.relatives,
        node.relatives.len(),
        pod,
        labels,
        name,
        a,
        namespace,
        wanted,
    );
    if takes(node, pod, labels, name) {
        lemma_none_selects_prefix(
            below.push(pod_node(pod)),
            below,
            below.len(),
            a,
            namespace,
            wanted,
        );
        assert(none_selects(pod_node(pod), a, namespace, wanted));
    }
}

/// The same, for the first `k` nodes of a list.
pub proof fn lemma_adopt_list_none_selects(
    nodes: Seq<NodeView>,
    k: nat,
    pod: PodView,
    labels: Map<Seq<char>, Seq<char>>,
    name: Seq<char>,
    a: ObjectRef,
    namespace: Option<Seq<char>>,
    wanted: Map<Seq<char>, Seq<char>>,
)
    requires
        k <= nodes.len(),
        none_selects_list(nodes, k, a, namespace, wanted),
        a.kind != ResourceKind::Pod,
    ensures
        adopt_list(nodes, k, pod, labels, name).len() == k,
        none_selects_list(adopt_list(nodes, k, pod, labels, name), k, a, namespace, wanted),
    decreases nodes, k,
{
    if k > 0 {
        let rest = adopt_list(nodes, (k - 1) as nat, pod, labels, name);
        let last = adopt(nodes[k - 1], pod, labels, name);
        lemma_adopt_list_none_selects(
            nodes,
            (k - 1) as nat,
            pod,
            labels,
            name,
            a,
            namespace,
            wanted,
        );
        lemma_none_selects_prefix(rest.push(last), rest, rest.len(), a, namespace, wanted);
        lemma_adopt_none_selects(nodes[k - 1], pod, labels, name, a, namespace, wanted);
        lemma_adopt_top(nodes[k - 1], pod, labels, name);
    }
}

/// Putting a pod under the root of its namespace keeps it that none of the
/// nodes for a service selects.
pub proof fn lemma_place_pod_none_selects(
    root: NodeView,
    pod: PodView,
    a: ObjectRef,
    namespace: Option<Seq<char>>,
    wanted: Map<Seq<char>, Seq<char>>,
)
    requires
        none_selects(root, a, namespace, wanted),
        a.kind != ResourceKind::Pod,
    ensures
        none_selects(place_pod(root, pod), a, namespace, wanted),
{
    match chosen(root, pod.metadata.namespace, labels_of(pod.metadata)) {
        Some(name) => {
            lemma_adopt_none_selects(root, pod, labels_of(pod.metadata), name, a, namespace, wanted);
        },
        None => {
            lemma_with_child_none_selects(root, pod_node(pod), a, namespace, wanted);
        },
    }
}

/// Once a service was applied that does not select a pod, no node for the
/// service in the forest selects the pod.
pub proof fn lemma_apply_service_none_selects(
    forest: Seq<NodeView>,
    service: ServiceView,
    pods: Seq<PodView>,
    pod: PodView,
    j: int,
)
    requires
        identified(service.metadata),
        !service_selects_pod(service, pod),
        0 <= j < apply_service(forest, service, pods).len(),
    ensures
        none_selects(
            apply_service(forest, service, pods)[j],
            ref_of(ResourceKind::Service, service.metadata),
            pod.metadata.namespace,
            labels_of(pod.metadata),
        ),
{
    let a = ref_of(ResourceKind::Service, service.metadata);
    let namespace = pod.metadata.namespace;
    let labels = labels_of(pod.metadata);
    let name = text_or_empty(service.metadata.name);
    let node = service_subtree(service, pods);
    let (ground, i) = lemma_service_ground(forest, service, pods);
    lemma_forest_count_parts(ground, ground.len(), a, false, j);
    lemma_absent_none_selects(ground[j], a, namespace, labels);
    if j == i {
        let root = ground[i];
        lemma_selected_kind(service, pods, pods.len(), a);
        lemma_absent_none_selects(node, a, namespace, labels);
        if referenced_among(root.relatives, root.relatives.len(), name) {
            lemma_fan_out_none_selects(
                root.relatives,
                root.relatives.len(),
                name,
                node,
                a,
                namespace,
                labels,
            );
        } else {
            lemma_with_child_none_selects(root, node, a, namespace, labels);
        }
    }
}

/// Move consistency: when a service is applied with a selector that does
/// not select a pod, and the pod is applied after it, the pod does not
/// stand under the service, wherever it stood before. Where the pod lives
/// in the namespace of the service it has a node then: under a service
/// that selects it, or directly under the root of the namespace.
pub proof fn law_move_consistency(
    forest: Seq<NodeView>,
    service: ServiceView,
    pods: Seq<PodView>,
    pod: PodView,
)
    requires
        identified(service.metadata),
        identified(pod.metadata),
        !service_selects_pod(service, pod),
    ensures
        !stands_under(
            apply_pod(apply_service(forest, service, pods), pod),
            ref_of(ResourceKind::Service, service.metadata),
            ref_of(ResourceKind::Pod, pod.metadata),
        ),
        pod.metadata.namespace == service.metadata.namespace ==> total(
            apply_pod(apply_service(forest, service, pods), pod),
            ref_of(ResourceKind::Pod, pod.metadata),
            false,
        ) >= 1,
{
    let a = ref_of(ResourceKind::Service, service.metadata);
    let b = ref_of(ResourceKind::Pod, pod.metadata);
    let namespace = pod.metadata.namespace;
    let labels = labels_of(pod.metadata);
    let served = apply_service(forest, service, pods);
    let after = apply_pod(served, pod);
    let cleared = forest_without(served, b);
    let i = root_index(cleared, namespace, 0);
    lemma_root_index_bounds(cleared, namespace, 0);
    lemma_forest_without_clears(served, served.len(), b, false);
    assert forall|j: int| 0 <= j < after.len() implies !((node_is(#[trigger] after[j], a)
        && has_child(after[j], b)) || nested(after[j], a, b)) by {
        lemma_apply_service_none_selects(forest, service, pods, pod, j);
        lemma_without_none_selects(served[j], b, a, namespace, labels);
        lemma_forest_count_parts(cleared, cleared.len(), b, false, j);
        if j == i {
            lemma_place_pod(cleared[i], pod);
            lemma_place_pod_none_selects(cleared[i], pod, a, namespace, labels);
            lemma_not_nested(after[j], a, b, namespace, labels);
        } else {
            lemma_absent_well_held(cleared[j], b, namespace, labels);
            lemma_not_nested(after[j], a, b, namespace, labels);
            lemma_absent_no_child(cleared[j], b);
        }
    }
    if pod.metadata.namespace == service.metadata.namespace {
        let (ground, at) = lemma_service_ground(forest, service, pods);
        let placed = place_service(
            ground[at],
            service_subtree(service, pods),
            text_or_empty(service.metadata.name),
        );
        lemma_root_replaced(ground, at, placed, service.metadata.namespace, 0);
        law_pod_under_selector(served, pod);
    }
}

// ---------------------------------------------------------------------------
// What stands under a route that was applied

/// Whether some node directly under `root` stands for the object `a` and has
/// the object `b` directly under it.
pub open spec fn child_holds(root: NodeView, a: ObjectRef, b: ObjectRef) -> bool {
    exists|j: int|
        0 <= j < root.relatives.len() && node_is(#[trigger] root.relatives[j], a) && has_child(
            root.relatives[j],
            b,
        )
}

/// Whether the object `a` has a node directly under `root`, and each such
/// node is `like`, but for what stands under it.
pub open spec fn child_like(root: NodeView, a: ObjectRef, like: NodeView) -> bool {
    &&& exists|j: int| 0 <= j < root.relatives.len() && node_is(#[trigger] root.relatives[j], a)
    &&& forall|j: int|
        0 <= j < root.relatives.len() && node_is(#[trigger] root.relatives[j], a) ==> same_top(
            root.relatives[j],
            like,
        )
}

/// Each node that is left when an object is taken out of a list was in the
/// list, with the object still under it.
pub proof fn lemma_without_list_origin(nodes: Seq<NodeView>, k: nat, gone: ObjectRef, m: int) -> (j:
    int)
    requires
        k <= nodes.len(),
        0 <= m < without_list(nodes, k, gone).len(),
    ensures
        0 <= j < k,
        !node_is(nodes[j], gone),
        without_list(nodes, k, gone)[m] == without(nodes[j], gone),
    decreases k,
{
    let rest = without_list(nodes, (k - 1) as nat, gone);
    if !node_is(nodes[k - 1], gone) && m == rest.len() {
        k - 1
    } else {
        lemma_without_list_origin(nodes, (k - 1) as nat, gone, m)
    }
}

/// Each node of a list that does not stand for the object is left when the
/// object is taken out, less the object under it.
pub proof fn lemma_without_list_member(nodes: Seq<NodeView>, k: nat, gone: ObjectRef, j: int) -> (m:
    int)
    requires
        0 <= j < k <= nodes.len(),
        !node_is(nodes[j], gone),
    ensures
        0 <= m < without_list(nodes, k, gone).len(),
        without_list(nodes, k, gone)[m] == without(nodes[j], gone),
    decreases k,
{
    let rest = without_list(nodes, (k - 1) as nat, gone);
    if j == k - 1 {
        rest.len() as int
    } else {
        lemma_without_list_member(nodes, (k - 1) as nat, gone, j)
    }
}

/// Once an object is taken out, another object stands directly under a node
/// exactly if it stood there before.
pub proof fn lemma_has_child_without(node: NodeView, gone: ObjectRef, b: ObjectRef)
    ensures
        has_child(without(node, gone), b) <==> has_child(node, b) && b != gone,
{
    let kept = without(node, gone);
    let below = node.relatives;
    if has_child(kept, b) {
        let m = choose|m: int| 0 <= m < kept.relatives.len() && node_is(
            #[trigger] kept.relatives[m],
            b,
        );
        let j = lemma_without_list_origin(below, below.len(), gone, m);
    }
    if has_child(node, b) && b != gone {
        let j = choose|j: int| 0 <= j < below.len() && node_is(#[trigger] below[j], b);
        let m = lemma_without_list_member(below, below.len(), gone, j);
        assert(node_is(kept.relatives[m], b));
    }
}

/// Once an object is taken out from under a root, a second object stands
/// under a node for a third directly under the root exactly if it stood
/// there before.
pub proof fn lemma_child_holds_without(root: NodeView, gone: ObjectRef, a: ObjectRef, b: ObjectRef)
    requires
        a != gone,
    ensures
        child_holds(without(root, gone), a, b) <==> child_holds(root, a, b) && b != gone,
{
    let kept = without(root, gone);
    let below = root.relatives;
    if child_holds(kept, a, b) {
        let m = choose|m: int|
            0 <= m < kept.relatives.len() && node_is(#[trigger] kept.relatives[m], a) && has_child(
                kept.relatives[m],
                b,
            );
        let j = lemma_without_list_origin(below, below.len(), gone, m);
        lemma_has_child_without(below[j], gone, b);
    }
    if child_holds(root, a, b) && b != gone {
        let j = choose|j: int|
            0 <= j < below.len() && node_is(#[trigger] below[j], a) && has_child(below[j], b);
        let m = lemma_without_list_member(below, below.len(), gone, j);
        lemma_has_child_without(below[j], gone, b);
        assert(node_is(kept.relatives[m], a) && has_child(kept.relatives[m], b));
    }
}

/// Taking another object out from under a root leaves the nodes for an
/// object directly under the root what they are like.
pub proof fn lemma_child_like_without(root: NodeView, gone: ObjectRef, a: ObjectRef, like: NodeView)
    requires
        a != gone,
        child_like(root, a, like),
    ensures
        child_like(without(root, gone), a, like),
{
    let kept = without(root, gone);
    let below = root.relatives;
    let j = choose|j: int| 0 <= j < below.len() && node_is(#[trigger] below[j], a);
    lemma_without_list_member(below, below.len(), gone, j);
    assert forall|m2: int|
        0 <= m2 < kept.relatives.len() && node_is(#[trigger] kept.relatives[m2], a) implies same_top(
        kept.relatives[m2],
        like,
    ) by {
        lemma_without_list_origin(below, below.len(), gone, m2);
    }
}

/// Taking the pods that a service selects out of the forest changes nothing
/// in which services stand under the routes directly under a root.
pub proof fn lemma_without_selected_child(
    forest: Seq<NodeView>,
    service: ServiceView,
    pods: Seq<PodView>,
    k: nat,
    i: int,
    a: ObjectRef,
    b: ObjectRef,
    like: NodeView,
)
    requires
        k <= pods.len(),
        0 <= i < forest.len(),
        a.kind == ResourceKind::HTTPRoute,
        b.kind == ResourceKind::Service,
    ensures
        without_selected(forest, service, pods, k).len() == forest.len(),
        child_holds(without_selected(forest, service, pods, k)[i], a, b) <==> child_holds(
            forest[i],
            a,
            b,
        ),
        child_like(forest[i], a, like) ==> child_like(
            without_selected(forest, service, pods, k)[i],
            a,
            like,
        ),
    decreases k,
{
    if k > 0 {
        lemma_without_selected_child(forest, service, pods, (k - 1) as nat, i, a, b, like);
        let rest = without_selected(forest, service, pods, (k - 1) as nat);
        if service_selects_pod(service, pods[k - 1]) {
            let gone = ref_of(ResourceKind::Pod, pods[k - 1].metadata);
            lemma_child_holds_without(rest[i], gone, a, b);
            if child_like(forest[i], a, like) {
                lemma_child_like_without(rest[i], gone, a, like);
            }
        }
    }
}

/// Where one of the first `k` nodes is a route that refers to the name, a
/// route among them does.
pub proof fn lemma_referenced_found(nodes: Seq<NodeView>, k: nat, name: Seq<char>, j: int)
    requires
        0 <= j < k <= nodes.len(),
        node_references(nodes[j], name),
    ensures
        referenced_among(nodes, k, name),
    decreases k,
{
    if j < k - 1 {
        lemma_referenced_found(nodes, (k - 1) as nat, name, j);
    }
}

/// Where the routes for an object directly under a root refer to a service,
/// putting the service under the root puts it under each of them, and
/// changes nothing else in what stands under them.
pub proof fn lemma_child_holds_place(
    root: NodeView,
    node: NodeView,
    name: Seq<char>,
    a: ObjectRef,
    b: ObjectRef,
    like: NodeView,
)
    requires
        child_like(root, a, like),
        node_references(like, name),
    ensures
        child_like(place_service(root, node, name), a, like),
        child_holds(place_service(root, node, name), a, b) <==> child_holds(root, a, b) || node_is(
            node,
            b,
        ),
{
    let below = root.relatives;
    let placed = place_service(root, node, name);
    let j = choose|j: int| 0 <= j < below.len() && node_is(#[trigger] below[j], a);
    lemma_referenced_found(below, below.len(), name, j);
    assert(node_is(placed.relatives[j], a));
    assert forall|m: int|
        0 <= m < placed.relatives.len() && node_is(#[trigger] placed.relatives[m], a) implies same_top(
        placed.relatives[m],
        like,
    ) by {}
    if child_holds(placed, a, b) {
        let m = choose|m: int|
            0 <= m < placed.relatives.len() && node_is(#[trigger] placed.relatives[m], a)
                && has_child(placed.relatives[m], b);
        let grown = with_child(below[m], node);
        let c = choose|c: int| 0 <= c < grown.relatives.len() && node_is(
            #[trigger] grown.relatives[c],
            b,
        );
    }
    if child_holds(root, a, b) {
        let m = choose|m: int|
            0 <= m < below.len() && node_is(#[trigger] below[m], a) && has_child(below[m], b);
        let c = choose|c: int| 0 <= c < below[m].relatives.len() && node_is(
            #[trigger] below[m].relatives[c],
            b,
        );
        let grown = with_child(below[m], node);
        assert(node_is(grown.relatives[c], b));
        assert(node_is(placed.relatives[m], a) && has_child(placed.relatives[m], b));
    }
    if node_is(node, b) {
        let grown = with_child(below[j], node);
        assert(node_is(grown.relatives[below[j].relatives.len() as int], b));
    }
}

/// What applying a service does under the routes for an object that refer
/// to it: afterwards the service stands under them, and so does every other
/// service that stood there.
pub proof fn lemma_apply_service_child(
    forest: Seq<NodeView>,
    service: ServiceView,
    pods: Seq<PodView>,
    i: int,
    a: ObjectRef,
    b: ObjectRef,
    like: NodeView,
)
    requires
        identified(service.metadata),
        0 <= i < forest.len(),
        root_index(forest, service.metadata.namespace, 0) == i,
        a.kind == ResourceKind::HTTPRoute,
        b.kind == ResourceKind::Service,
        child_like(forest[i], a, like),
        node_references(like, text_or_empty(service.metadata.name)),
    ensures
        ({
            let after = apply_service(forest, service, pods);
            &&& after.len() == forest.len()
            &&& root_index(after, service.metadata.namespace, 0) == i
            &&& child_like(after[i], a, like)
            &&& child_holds(after[i], a, b) <==> child_holds(forest[i], a, b) || b == ref_of(
                ResourceKind::Service,
                service.metadata,
            )
        }),
{
    let r = ref_of(ResourceKind::Service, service.metadata);
    let namespace = service.metadata.namespace;
    let name = text_or_empty(service.metadata.name);
    let removed = forest_without(forest, r);
    let cleared = without_selected(removed, service, pods, pods.len());
    let node = service_subtree(service, pods);
    lemma_child_holds_without(forest[i], r, a, b);
    lemma_child_like_without(forest[i], r, a, like);
    lemma_without_selected_child(removed, service, pods, pods.len(), i, a, b, like);
    lemma_without_tops(forest, r);
    lemma_without_selected_tops(removed, service, pods, pods.len());
    lemma_same_tops_index(forest, removed, namespace, 0);
    lemma_same_tops_index(removed, cleared, namespace, 0);
    lemma_root_index_bounds(cleared, namespace, 0);
    let placed = place_service(cleared[i], node, name);
    lemma_root_replaced(cleared, i, placed, namespace, 0);
    lemma_child_holds_place(cleared[i], node, name, a, b, like);
}

/// What applying the services that a route refers to does under the route:
/// afterwards exactly those of them stand under it that were applied.
pub proof fn lemma_apply_referenced_child(
    forest: Seq<NodeView>,
    route: HTTPRouteView,
    services: Seq<ServiceView>,
    k: nat,
    pods: Seq<PodView>,
    i: int,
    b: ObjectRef,
)
    requires
        k <= services.len(),
        identified(route.metadata),
        0 <= i < forest.len(),
        root_index(forest, route.metadata.namespace, 0) == i,
        b.kind == ResourceKind::Service,
        child_like(forest[i], ref_of(ResourceKind::HTTPRoute, route.metadata), route_node(route)),
        !child_holds(forest[i], ref_of(ResourceKind::HTTPRoute, route.metadata), b),
    ensures
        ({
            let after = apply_referenced(forest, route, services, k, pods);
            let a = ref_of(ResourceKind::HTTPRoute, route.metadata);
            &&& after.len() == forest.len()
            &&& root_index(after, route.metadata.namespace, 0) == i
            &&& child_like(after[i], a, route_node(route))
            &&& child_holds(after[i], a, b) <==> exists|j: int|
                0 <= j < k && route_references_service(route, #[trigger] services[j])
                    && identified(services[j].metadata) && ref_of(
                    ResourceKind::Service,
                    services[j].metadata,
                ) == b
        }),
    decreases k,
{
    let a = ref_of(ResourceKind::HTTPRoute, route.metadata);
    if k > 0 {
        lemma_apply_referenced_child(forest, route, services, (k - 1) as nat, pods, i, b);
        let rest = apply_referenced(forest, route, services, (k - 1) as nat, pods);
        let after = apply_referenced(forest, route, services, k, pods);
        let last = services[k - 1];
        if route_references_service(route, last) && identified(last.metadata) {
            lemma_apply_service_child(rest, last, pods, i, a, b, route_node(route));
        }
        let before = exists|j: int|
            0 <= j < k - 1 && route_references_service(route, #[trigger] services[j])
                && identified(services[j].metadata) && ref_of(
                ResourceKind::Service,
                services[j].metadata,
            ) == b;
        let now = exists|j: int|
            0 <= j < k && route_references_service(route, #[trigger] services[j]) && identified(
                services[j].metadata,
            ) && ref_of(ResourceKind::Service, services[j].metadata) == b;
        if before {
            let j = choose|j: int|
                0 <= j < k - 1 && route_references_service(route, #[trigger] services[j])
                    && identified(services[j].metadata) && ref_of(
                    ResourceKind::Service,
                    services[j].metadata,
                ) == b;
        }
        if now && !before {
            let j = choose|j: int|
                0 <= j < k && route_references_service(route, #[trigger] services[j])
                    && identified(services[j].metadata) && ref_of(
                    ResourceKind::Service,
                    services[j].metadata,
                ) == b;
        }
    }
}

/// Reference correctness, for the route applied: once a route was applied
/// whose namespace has a root, a known service that has a name and a
/// namespace stands under the route exactly if the route refers to it.
pub proof fn law_route_holds_referenced(
    forest: Seq<NodeView>,
    route: HTTPRouteView,
    services: Seq<ServiceView>,
    pods: Seq<PodView>,
    j: int,
)
    requires
        identified(route.metadata),
        root_index(forest, route.metadata.namespace, 0) < forest.len(),
        0 <= j < services.len(),
        identified(services[j].metadata),
    ensures
        ({
            let after = apply_route(forest, route, services, pods);
            let i = root_index(forest, route.metadata.namespace, 0);
            &&& 0 <= i < after.len()
            &&& root_index(after, route.metadata.namespace, 0) == i
            &&& child_holds(
                after[i],
                ref_of(ResourceKind::HTTPRoute, route.metadata),
                ref_of(ResourceKind::Service, services[j].metadata),
            ) <==> route_references_service(route, services[j])
        }),
{
    let a = ref_of(ResourceKind::HTTPRoute, route.metadata);
    let b = ref_of(ResourceKind::Service, services[j].metadata);
    let namespace = route.metadata.namespace;
    let cleared = forest_without(forest, a);
    lemma_root_index_bounds(forest, namespace, 0);
    lemma_without_tops(forest, a);
    lemma_same_tops_index(forest, cleared, namespace, 0);
    let i = root_index(cleared, namespace, 0);
    let fresh = route_node(route);
    let grown = with_child(cleared[i], fresh);
    let attached = cleared.update(i, grown);
    lemma_root_replaced(cleared, i, grown, namespace, 0);
    lemma_without_clears(forest[i], a, false);
    let below = cleared[i].relatives;
    assert(node_is(grown.relatives[below.len() as int], a));
    assert forall|m: int|
        0 <= m < grown.relatives.len() && node_is(#[trigger] grown.relatives[m], a) implies same_top(
        grown.relatives[m],
        fresh,
    ) && !has_child(grown.relatives[m], b) by {
        if m < below.len() {
            lemma_count_list_parts(below, below.len(), a, m);
        }
    }
    lemma_apply_referenced_child(attached, route, services, services.len(), pods, i, b);
    let after = apply_route(forest, route, services, pods);
    if child_holds(after[i], a, b) {
        let j2 = choose|j2: int|
            0 <= j2 < services.len() && route_references_service(route, #[trigger] services[j2])
                && identified(services[j2].metadata) && ref_of(
                ResourceKind::Service,
                services[j2].metadata,
            ) == b;
    }
}

// ---------------------------------------------------------------------------
// A pod that one service selects, and no other

/// Whether every node under `node` that is a service selecting the
/// namespace and labels given stands for the object `a`.
pub open spec fn only_by(
    node: NodeView,
    a: ObjectRef,
    namespace: Option<Seq<char>>,
    labels: Map<Seq<char>, Seq<char>>,
) -> bool
    decreases node, 0nat,
{
    only_by_list(node.relatives, node.relatives.len(), a, namespace, labels)
}

/// Whether every node among the first `k` nodes, or under them, that is a
/// service selecting the namespace and labels given stands for the object
/// `a`.
pub open spec fn only_by_list(
    nodes: Seq<NodeView>,
    k: nat,
    a: ObjectRef,
    namespace: Option<Seq<char>>,
    labels: Map<Seq<char>, Seq<char>>,
) -> bool
    decreases nodes, k,
{
    if k == 0 || k > nodes.len() {
        true
    } else {
        only_by_list(nodes, (k - 1) as nat, a, namespace, labels) && (node_selects(
            nodes[k - 1],
            namespace,
            labels,
        ) ==> node_is(nodes[k - 1], a)) && only_by(nodes[k - 1], a, namespace, labels)
    }
}

/// Whether only the first `k` nodes matter to that.
pub proof fn lemma_only_by_prefix(
    x: Seq<NodeView>,
    y: Seq<NodeView>,
    k: nat,
    a: ObjectRef,
    namespace: Option<Seq<char>>,
    labels: Map<Seq<char>, Seq<char>>,
)
    requires
        k <= x.len(),
        k <= y.len(),
        forall|j: int| 0 <= j < k ==> x[j] == y[j],
    ensures
        only_by_list(x, k, a, namespace, labels) == only_by_list(y, k, a, namespace, labels),
    decreases k,
{
    if k > 0 {
        lemma_only_by_prefix(x, y, (k - 1) as nat, a, namespace, labels);
    }
}

/// A node attached under another keeps it that only nodes for the object
/// select, if that holds of the node attached.
pub proof fn lemma_with_child_only_by(
    node: NodeView,
    child: NodeView,
    a: ObjectRef,
    namespace: Option<Seq<char>>,
    labels: Map<Seq<char>, Seq<char>>,
)
    requires
        only_by(node, a, namespace, labels),
        node_selects(child, namespace, labels) ==> node_is(child, a),
        only_by(child, a, namespace, labels),
    ensures
        only_by(with_child(node, child), a, namespace, labels),
{
    lemma_only_by_prefix(
        node.relatives.push(child),
        node.relatives,
        node.relatives.len(),
        a,
        namespace,
        labels,
    );
}

/// Copies attached under routes keep it that only nodes for the object
/// select.
pub proof fn lemma_fan_out_only_by(
    nodes: Seq<NodeView>,
    k: nat,
    name: Seq<char>,
    node: NodeView,
    a: ObjectRef,
    namespace: Option<Seq<char>>,
    labels: Map<Seq<char>, Seq<char>>,
)
    requires
        k <= nodes.len(),
        only_by_list(nodes, k, a, namespace, labels),
        node_selects(node, namespace, labels) ==> node_is(node, a),
        only_by(node, a, namespace, labels),
    ensures
        only_by_list(fan_out(nodes, name, node), k, a, namespace, labels),
    decreases k,
{
    if k > 0 {
        lemma_fan_out_only_by(nodes, (k - 1) as nat, name, node, a, namespace, labels);
        if node_references(nodes[k - 1], name) {
            lemma_with_child_only_by(nodes[k - 1], node, a, namespace, labels);
        }
    }
}

/// Taking an object out keeps it that only nodes for the object `a` select.
pub proof fn lemma_without_only_by(
    node: NodeView,
    gone: ObjectRef,
    a: ObjectRef,
    namespace: Option<Seq<char>>,
    labels: Map<Seq<char>, Seq<char>>,
)
    requires
        only_by(node, a, namespace, labels),
    ensures
        only_by(without(node, gone), a, namespace, labels),
    decreases node, 0nat,
{
    lemma_without_list_only_by(node.relatives, node.relatives.len(), gone, a, namespace, labels);
}

/// Taking an object out of a list keeps it that only nodes for the object
/// `a` select.
pub proof fn lemma_without_list_only_by(
    nodes: Seq<NodeView>,
    k: nat,
    gone: ObjectRef,
    a: ObjectRef,
    namespace: Option<Seq<char>>,
    labels: Map<Seq<char>, Seq<char>>,
)
    requires
        k <= nodes.len(),
        only_by_list(nodes, k, a, namespace, labels),
    ensures
        only_by_list(
            without_list(nodes, k, gone),
            without_list(nodes, k, gone).len(),
            a,
            namespace,
            labels,
        ),
    decreases nodes, k,
{
    if k > 0 {
        let rest = without_list(nodes, (k - 1) as nat, gone);
        lemma_without_list_only_by(nodes, (k - 1) as nat, gone, a, namespace, labels);
        if !node_is(nodes[k - 1], gone) {
            let kept = without(nodes[k - 1], gone);
            lemma_without_only_by(nodes[k - 1], gone, a, namespace, labels);
            lemma_only_by_prefix(rest.push(kept), rest, rest.len(), a, namespace, labels);
        }
    }
}

/// Taking the pods that a service selects out keeps it that only nodes for
/// the object `a` select.
pub proof fn lemma_without_selected_only_by(
    forest: Seq<NodeView>,
    service: ServiceView,
    pods: Seq<PodView>,
    k: nat,
    j: int,
    a: ObjectRef,
    namespace: Option<Seq<char>>,
    labels: Map<Seq<char>, Seq<char>>,
)
    requires
        k <= pods.len(),
        0 <= j < forest.len(),
        only_by(forest[j], a, namespace, labels),
    ensures
        without_selected(forest, service, pods, k).len() == forest.len(),
        only_by(without_selected(forest, service, pods, k)[j], a, namespace, labels),
    decreases k,
{
    if k > 0 {
        lemma_without_selected_only_by(forest, service, pods, (k - 1) as nat, j, a, namespace, labels);
        let rest = without_selected(forest, service, pods, (k - 1) as nat);
        if service_selects_pod(service, pods[k - 1]) {
            lemma_without_only_by(
                rest[j],
                ref_of(ResourceKind::Pod, pods[k - 1].metadata),
                a,
                namespace,
                labels,
            );
        }
    }
}

/// The nodes of pods select nothing.
pub proof fn lemma_selected_only_by(
    service: ServiceView,
    pods: Seq<PodView>,
    k: nat,
    a: ObjectRef,
    namespace: Option<Seq<char>>,
    labels: Map<Seq<char>, Seq<char>>,
)
    requires
        k <= pods.len(),
    ensures
        only_by_list(
            selected_pods(service, pods, k),
            selected_pods(service, pods, k).len(),
            a,
            namespace,
            labels,
        ),
    decreases k,
{
    if k > 0 {
        lemma_selected_only_by(service, pods, (k - 1) as nat, a, namespace, labels);
        let rest = selected_pods(service, pods, (k - 1) as nat);
        if service_selects_pod(service, pods[k - 1]) {
            lemma_only_by_prefix(
                rest.push(pod_node(pods[k - 1])),
                rest,
                rest.len(),
                a,
                namespace,
                labels,
            );
            assert(only_by(pod_node(pods[k - 1]), a, namespace, labels));
        }
    }
}

/// Where an object has a node under `node`, though not directly, each node
/// that has it directly under it selects, and only nodes for `a` select,
/// the object stands under `a`.
pub proof fn lemma_held_by(
    node: NodeView,
    a: ObjectRef,
    b: ObjectRef,
    namespace: Option<Seq<char>>,
    labels: Map<Seq<char>, Seq<char>>,
)
    requires
        count(node, b, false) > 0,
        !has_child(node, b),
        well_held(node, b, namespace, labels),
        only_by(node, a, namespace, labels),
    ensures
        nested(node, a, b),
    decreases node, 0nat,
{
    assert forall|j: int| 0 <= j < node.relatives.len() implies !node_is(
        #[trigger] node.relatives[j],
        b,
    ) by {}
    lemma_held_by_list(node.relatives, node.relatives.len(), a, b, namespace, labels);
}

/// The same, for the first `k` nodes of a list none of which is the object.
pub proof fn lemma_held_by_list(
    nodes: Seq<NodeView>,
    k: nat,
    a: ObjectRef,
    b: ObjectRef,
    namespace: Option<Seq<char>>,
    labels: Map<Seq<char>, Seq<char>>,
)
    requires
        k <= nodes.len(),
        count_list(nodes, k, b, false) > 0,
        forall|j: int| 0 <= j < k ==> !node_is(#[trigger] nodes[j], b),
        well_held_list(nodes, k, b, namespace, labels),
        only_by_list(nodes, k, a, namespace, labels),
    ensures
        nested_list(nodes, k, a, b),
    decreases nodes, k,
{
    if k > 0 {
        let last = nodes[k - 1];
        if count_list(nodes, (k - 1) as nat, b, false) > 0 {
            lemma_held_by_list(nodes, (k - 1) as nat, a, b, namespace, labels);
        } else if !has_child(last, b) {
            lemma_held_by(last, a, b, namespace, labels);
        }
    }
}

/// Selector correctness, for a service and a pod applied one after the
/// other: when a service is applied that selects a pod, and the pod is
/// applied after it, the pod stands under the service, given that no other
/// service in the forest selects the pod.
pub proof fn law_pod_joins_service(
    forest: Seq<NodeView>,
    service: ServiceView,
    pods: Seq<PodView>,
    pod: PodView,
)
    requires
        identified(service.metadata),
        identified(pod.metadata),
        service_selects_pod(service, pod),
        forall|j: int|
            0 <= j < forest.len() ==> only_by(
                #[trigger] forest[j],
                ref_of(ResourceKind::Service, service.metadata),
                pod.metadata.namespace,
                labels_of(pod.metadata),
            ),
    ensures
        stands_under(
            apply_pod(apply_service(forest, service, pods), pod),
            ref_of(ResourceKind::Service, service.metadata),
            ref_of(ResourceKind::Pod, pod.metadata),
        ),
{
    let a = ref_of(ResourceKind::Service, service.metadata);
    let b = ref_of(ResourceKind::Pod, pod.metadata);
    let namespace = pod.metadata.namespace;
    let labels = labels_of(pod.metadata);
    let name = text_or_empty(service.metadata.name);
    let node = service_subtree(service, pods);
    let served = apply_service(forest, service, pods);
    let (ground, i) = lemma_service_ground(forest, service, pods);
    let put = place_service(ground[i], node, name);
    lemma_root_replaced(ground, i, put, namespace, 0);
    // Only the service selects the pod, before it is put in and after.
    let removed = forest_without(forest, a);
    let cleared = without_selected(removed, service, pods, pods.len());
    lemma_root_index_bounds(cleared, service.metadata.namespace, 0);
    if i < forest.len() {
        lemma_without_only_by(forest[i], a, a, namespace, labels);
        lemma_without_selected_only_by(removed, service, pods, pods.len(), i, a, namespace, labels);
    }
    lemma_selected_only_by(service, pods, pods.len(), a, namespace, labels);
    if referenced_among(ground[i].relatives, ground[i].relatives.len(), name) {
        lemma_fan_out_only_by(
            ground[i].relatives,
            ground[i].relatives.len(),
            name,
            node,
            a,
            namespace,
            labels,
        );
    } else {
        lemma_with_child_only_by(ground[i], node, a, namespace, labels);
    }
    // A node for the service under the root selects the pod, and still does
    // once the pod was taken out.
    let after = apply_pod(served, pod);
    let swept = forest_without(served, b);
    crate::wiping::lemma_without_place_other(ground[i], node, name, b);
    lemma_placed_selects(without(ground[i], b), without(node, b), name, namespace, labels);
    // Where the pod is put.
    law_pod_under_selector(served, pod);
    lemma_without_tops(served, b);
    lemma_same_tops_index(served, swept, namespace, 0);
    lemma_without_only_by(served[i], b, a, namespace, labels);
    lemma_place_pod_only_by(swept[i], pod, a, namespace);
    lemma_held_by(after[i], a, b, namespace, labels);
}

/// Where a service that selects is put under a root, a service under the
/// root selects.
pub proof fn lemma_placed_selects(
    root: NodeView,
    node: NodeView,
    name: Seq<char>,
    namespace: Option<Seq<char>>,
    labels: Map<Seq<char>, Seq<char>>,
)
    requires
        node_selects(node, namespace, labels),
    ensures
        selects_within(place_service(root, node, name), namespace, labels),
{
    let below = root.relatives;
    let put = place_service(root, node, name);
    if referenced_among(below, below.len(), name) {
        let j = lemma_referenced_witness(below, below.len(), name);
        let grown = with_child(below[j], node);
        lemma_selects_found(grown.relatives, grown.relatives.len(), namespace, labels, below[
            j
        ].relatives.len() as int);
        lemma_selects_found(put.relatives, put.relatives.len(), namespace, labels, j);
    } else {
        lemma_selects_found(put.relatives, put.relatives.len(), namespace, labels, below.len() as int);
    }
}

/// Where a route among the first `k` nodes refers to the name, one of them
/// does.
pub proof fn lemma_referenced_witness(nodes: Seq<NodeView>, k: nat, name: Seq<char>) -> (j: int)
    requires
        k <= nodes.len(),
        referenced_among(nodes, k, name),
    ensures
        0 <= j < k,
        node_references(nodes[j], name),
    decreases k,
{
    if node_references(nodes[k - 1], name) {
        k - 1
    } else {
        lemma_referenced_witness(nodes, (k - 1) as nat, name)
    }
}

/// Putting a pod in keeps it that only nodes for a service select.
pub proof fn lemma_adopt_only_by(
    node: NodeView,
    pod: PodView,
    labels: Map<Seq<char>, Seq<char>>,
    name: Seq<char>,
    a: ObjectRef,
    namespace: Option<Seq<char>>,
)
    requires
        only_by(node, a, namespace, labels),
    ensures
        only_by(adopt(node, pod, labels, name), a, namespace, labels),
    decreases node, 0nat,
{
    let below = adopt_list(node.relatives, node.relatives.len(), pod, labels, name);
    lemma_adopt_list_only_by(node.relatives, node.relatives.len(), pod, labels, name, a, namespace);
    if takes(node, pod, labels, name) {
        lemma_only_by_prefix(below.push(pod_node(pod)), below, below.len(), a, namespace, labels);
        assert(only_by(pod_node(pod), a, namespace, labels));
    }
}

/// The same, for the first `k` nodes of a list.
pub proof fn lemma_adopt_list_only_by(
    nodes: Seq<NodeView>,
    k: nat,
    pod: PodView,
    labels: Map<Seq<char>, Seq<char>>,
    name: Seq<char>,
    a: ObjectRef,
    namespace: Option<Seq<char>>,
)
    requires
        k <= nodes.len(),
        only_by_list(nodes, k, a, namespace, labels),
    ensures
        adopt_list(nodes, k, pod, labels, name).len() == k,
        only_by_list(adopt_list(nodes, k, pod, labels, name), k, a, namespace, labels),
    decreases nodes, k,
{
    if k > 0 {
        let rest = adopt_list(nodes, (k - 1) as nat, pod, labels, name);
        let last = adopt(nodes[k - 1], pod, labels, name);
        lemma_adopt_list_only_by(nodes, (k - 1) as nat, pod, labels, name, a, namespace);
        lemma_only_by_prefix(rest.push(last), rest, rest.len(), a, namespace, labels);
        lemma_adopt_only_by(nodes[k - 1], pod, labels, name, a, namespace);
        lemma_adopt_top(nodes[k - 1], pod, labels, name);
    }
}

/// Putting a pod under the root of its namespace keeps it that only nodes
/// for a service select the pod.
pub proof fn lemma_place_pod_only_by(
    root: NodeView,
    pod: PodView,
    a: ObjectRef,
    namespace: Option<Seq<char>>,
)
    requires
        only_by(root, a, namespace, labels_of(pod.metadata)),
    ensures
        only_by(place_pod(root, pod), a, namespace, labels_of(pod.metadata)),
{
    let labels = labels_of(pod.metadata);
    match chosen(root, pod.metadata.namespace, labels) {
        Some(name) => {
            lemma_adopt_only_by(root, pod, labels, name, a, namespace);
        },
        None => {
            lemma_with_child_only_by(root, pod_node(pod), a, namespace, labels);
        },
    }
}

/// Where one of the first `k` nodes selects, or has a service under it that
/// selects, a service among them or under them selects.
pub proof fn lemma_selects_found(
    nodes: Seq<NodeView>,
    k: nat,
    namespace: Option<Seq<char>>,
    labels: Map<Seq<char>, Seq<char>>,
    j: int,
)
    requires
        0 <= j < k <= nodes.len(),
        selects_within(nodes[j], namespace, labels),
    ensures
        selects_within_list(nodes, k, namespace, labels),
    decreases k,
{
    if j < k - 1 {
        lemma_selects_found(nodes, (k - 1) as nat, namespace, labels, j);
    }
}

// ---------------------------------------------------------------------------
// How many nodes an applied object has

/// How many of the first `k` nodes are routes that refer to the name.
pub open spec fn referring(nodes: Seq<NodeView>, k: nat, name: Seq<char>) -> nat
    decreases k,
{
    if k == 0 || k > nodes.len() {
        0
    } else {
        referring(nodes, (k - 1) as nat, name) + (if node_references(nodes[k - 1], name) {
            1nat
        } else {
            0nat
        })
    }
}

/// How many routes refer to a name goes by the routes: not by what stands
/// under them, nor by nodes that are no routes.
pub proof fn lemma_referring_tops(a: Seq<NodeView>, b: Seq<NodeView>, k: nat, name: Seq<char>)
    requires
        k <= a.len(),
        k <= b.len(),
        forall|j: int| 0 <= j < k ==> same_top(#[trigger] a[j], b[j]),
    ensures
        referring(a, k, name) == referring(b, k, name),
        referenced_among(a, k, name) == referenced_among(b, k, name),
        referenced_among(a, k, name) <==> referring(a, k, name) > 0,
    decreases k,
{
    if k > 0 {
        lemma_referring_tops(a, b, (k - 1) as nat, name);
    }
}

/// A node that holds one node for an object, copied under the routes that
/// refer to a name, adds one node for the object for each such route.
pub proof fn lemma_fan_out_adds(
    nodes: Seq<NodeView>,
    k: nat,
    name: Seq<char>,
    node: NodeView,
    r: ObjectRef,
)
    requires
        k <= nodes.len(),
        crate::counting::weight(node, r, false) == 1,
    ensures
        count_list(fan_out(nodes, name, node), k, r, false) == count_list(nodes, k, r, false)
            + referring(nodes, k, name),
    decreases k,
{
    if k > 0 {
        lemma_fan_out_adds(nodes, (k - 1) as nat, name, node, r);
        if node_references(nodes[k - 1], name) {
            lemma_with_child_count(nodes[k - 1], node, r, false);
        }
    }
}

/// Uniqueness, for the service applied: once a service was applied it has
/// one node under each route of its namespace that refers to it, and no
/// other; where no route refers to it, it has one node, directly under the
/// root of its namespace.
pub proof fn law_service_copies(forest: Seq<NodeView>, service: ServiceView, pods: Seq<PodView>)
    requires
        identified(service.metadata),
    ensures
        ({
            let after = apply_service(forest, service, pods);
            let i = root_index(after, service.metadata.namespace, 0);
            let r = ref_of(ResourceKind::Service, service.metadata);
            let routes = referring(
                after[i].relatives,
                after[i].relatives.len(),
                text_or_empty(service.metadata.name),
            );
            &&& 0 <= i < after.len()
            &&& total(after, r, false) == count(after[i], r, false)
            &&& total(after, r, false) == (if routes > 0 {
                routes
            } else {
                1nat
            })
        }),
{
    let after = apply_service(forest, service, pods);
    let r = ref_of(ResourceKind::Service, service.metadata);
    let name = text_or_empty(service.metadata.name);
    let node = service_subtree(service, pods);
    let (ground, i) = lemma_service_ground(forest, service, pods);
    let root = ground[i];
    let put = place_service(root, node, name);
    let below = root.relatives;
    lemma_root_replaced(ground, i, put, service.metadata.namespace, 0);
    lemma_forest_count_parts(ground, ground.len(), r, false, i);
    lemma_update_count(ground, i, put, ground.len(), r, false);
    crate::uniqueness::lemma_subtree_weight(service, pods, r, false);
    lemma_referring_tops(below, below, below.len(), name);
    if referenced_among(below, below.len(), name) {
        lemma_fan_out_adds(below, below.len(), name, node, r);
        assert forall|j: int| 0 <= j < below.len() implies same_top(
            #[trigger] put.relatives[j],
            below[j],
        ) by {}
        lemma_referring_tops(put.relatives, below, below.len(), name);
    } else {
        lemma_with_child_count(root, node, r, false);
        lemma_referring_tops(put.relatives, below, below.len(), name);
    }
}

/// What applying a service does to the count of an object that is no
/// service and no pod: it has no more nodes than before.
pub proof fn lemma_apply_service_others(
    forest: Seq<NodeView>,
    service: ServiceView,
    pods: Seq<PodView>,
    r: ObjectRef,
)
    requires
        r.kind == ResourceKind::HTTPRoute || r.kind == ResourceKind::Namespace,
    ensures
        total(apply_service(forest, service, pods), r, false) <= total(forest, r, false),
{
    if identified(service.metadata) {
        let target = ref_of(ResourceKind::Service, service.metadata);
        let name = text_or_empty(service.metadata.name);
        let node = service_subtree(service, pods);
        let removed = forest_without(forest, target);
        let cleared = without_selected(removed, service, pods, pods.len());
        let i = root_index(cleared, service.metadata.namespace, 0);
        lemma_root_index_bounds(cleared, service.metadata.namespace, 0);
        let spare = placeholder_namespace(text_or_empty(service.metadata.namespace));
        let rooted = if i >= cleared.len() {
            cleared.push(spare)
        } else {
            cleared
        };
        crate::counting::lemma_forest_without_le(forest, forest.len(), target, r, false);
        lemma_without_selected_le(removed, service, pods, pods.len(), r, false);
        if i >= cleared.len() {
            lemma_push_count(cleared, spare, r, false);
        }
        let put = place_service(rooted[i], node, name);
        lemma_update_count(rooted, i, put, rooted.len(), r, false);
        crate::uniqueness::lemma_subtree_weight(service, pods, r, false);
        lemma_picks_kind(service, pods, pods.len(), r);
        crate::uniqueness::lemma_place_service_count(rooted[i], node, name, r, false);
    }
}

proof fn lemma_apply_referenced_others(
    forest: Seq<NodeView>,
    route: HTTPRouteView,
    services: Seq<ServiceView>,
    k: nat,
    pods: Seq<PodView>,
    r: ObjectRef,
)
    requires
        k <= services.len(),
        r.kind == ResourceKind::HTTPRoute || r.kind == ResourceKind::Namespace,
    ensures
        total(apply_referenced(forest, route, services, k, pods), r, false) <= total(
            forest,
            r,
            false,
        ),
    decreases k,
{
    if k > 0 {
        lemma_apply_referenced_others(forest, route, services, (k - 1) as nat, pods, r);
        lemma_apply_service_others(
            apply_referenced(forest, route, services, (k - 1) as nat, pods),
            services[k - 1],
            pods,
            r,
        );
    }
}

/// Uniqueness, for the route applied: once a route was applied whose
/// namespace has a root, the route has exactly one node, and it stands
/// directly under that root; and the roots are what they were.
pub proof fn law_route_stands_once(
    forest: Seq<NodeView>,
    route: HTTPRouteView,
    services: Seq<ServiceView>,
    pods: Seq<PodView>,
)
    requires
        identified(route.metadata),
        root_index(forest, route.metadata.namespace, 0) < forest.len(),
    ensures
        ({
            let after = apply_route(forest, route, services, pods);
            let i = root_index(forest, route.metadata.namespace, 0);
            let r = ref_of(ResourceKind::HTTPRoute, route.metadata);
            &&& crate::uniqueness::same_tops(forest, after)
            &&& 0 <= i < after.len()
            &&& total(after, r, false) == 1
            &&& has_child(after[i], r)
        }),
{
    let a = ref_of(ResourceKind::HTTPRoute, route.metadata);
    let b = crate::tree::object_ref(ResourceKind::Service, None, Seq::empty());
    let namespace = route.metadata.namespace;
    let cleared = forest_without(forest, a);
    crate::uniqueness::lemma_apply_route_same_tops(forest, route, services, pods);
    lemma_root_index_bounds(forest, namespace, 0);
    lemma_without_tops(forest, a);
    lemma_same_tops_index(forest, cleared, namespace, 0);
    let i = root_index(cleared, namespace, 0);
    let fresh = route_node(route);
    let grown = with_child(cleared[i], fresh);
    let attached = cleared.update(i, grown);
    lemma_root_replaced(cleared, i, grown, namespace, 0);
    lemma_without_clears(forest[i], a, false);
    lemma_forest_without_clears(forest, forest.len(), a, false);
    lemma_update_count(cleared, i, grown, cleared.len(), a, false);
    lemma_with_child_count(cleared[i], fresh, a, false);
    lemma_forest_count_parts(cleared, cleared.len(), a, false, i);
    let below = cleared[i].relatives;
    assert forall|m: int|
        0 <= m < grown.relatives.len() && node_is(#[trigger] grown.relatives[m], a) implies same_top(
        grown.relatives[m],
        fresh,
    ) && !has_child(grown.relatives[m], b) by {
        if m < below.len() {
            lemma_count_list_parts(below, below.len(), a, m);
        }
    }
    lemma_apply_referenced_child(attached, route, services, services.len(), pods, i, b);
    lemma_apply_referenced_others(attached, route, services, services.len(), pods, a);
    let after = apply_route(forest, route, services, pods);
    let j = choose|j: int| 0 <= j < after[i].relatives.len() && node_is(
        #[trigger] after[i].relatives[j],
        a,
    );
    crate::counting::lemma_count_in_total(after, after.len(), a, false, i);
    lemma_child_counted(after[i].relatives, after[i].relatives.len(), a, j);
}

/// A node for an object among the first `k` nodes is counted.
pub proof fn lemma_child_counted(nodes: Seq<NodeView>, k: nat, r: ObjectRef, j: int)
    requires
        0 <= j < k <= nodes.len(),
        node_is(nodes[j], r),
    ensures
        count_list(nodes, k, r, false) >= 1,
    decreases k,
{
    if j < k - 1 {
        lemma_child_counted(nodes, (k - 1) as nat, r, j);
    }
}

} // verus!
