//! What holds of the forest whatever notifications arrive: there is one root
//! for each namespace, no namespace stands under a root, and no pod, service
//! or route stands in two places, but for the copies of a service under the
//! routes that refer to it.

use crate::counting::{
    count, count_list, forest_count, hit, host_ref, lemma_adopt_count, lemma_count_in_total,
    lemma_forest_count_parts, lemma_forest_without_clears, lemma_forest_without_le,
    lemma_free_le_forest, lemma_pod_node_weight, lemma_push_count, lemma_update_count,
    lemma_with_child_count, total, weight,
};
use crate::events::{
    WatchEvent, after_httproute_event, after_namespace_event, after_pod_event, after_service_event,
};
use crate::homes::{
    at_home, law_initial_forest_at_home, lemma_apply_namespace_home, lemma_apply_pod_home,
    lemma_apply_route_home, lemma_apply_service_home, lemma_delete_home,
    lemma_delete_namespace_home,
};
use crate::node::{
    NodeView, ResourceKind, namespace_node, placeholder_namespace, pod_node, route_node,
    service_node, text_or_empty,
};
use crate::objects::{HTTPRouteView, NamespaceView, ObjectMetaView, PodView, ServiceView};
use crate::reconcile::{
    apply_missing_pods, apply_namespace, apply_pod, apply_referenced, apply_route, apply_routes,
    apply_service, apply_services, chosen, fan_out, initial_forest, place_pod, place_service,
    populate, referenced_among, remove_namespace, remove_object, roots_for, roots_without,
    selected_pods, service_subtree, with_child, without_selected,
};
use crate::rules::{labels_of, node_references, service_selects_pod};
use crate::tree::{ObjectRef, forest_without, identified, is_root_for, ref_of, root_index};
use vstd::prelude::*;

verus! {

// ---------------------------------------------------------------------------
// No object stands in two places

/// No object has two nodes in the forest, the fan-out under routes aside:
/// where an object has more than one node, each of them stands under a
/// route.
pub open spec fn unique(forest: Seq<NodeView>) -> bool {
    forall|r: ObjectRef| #[trigger] total(forest, r, false) <= 1 || total(forest, r, true) == 0
}

/// A step under which, for every object but `spared`, neither the count of
/// all its nodes nor the count of its free nodes grows, keeps the forest
/// free of doubles, provided `spared` has at most one node after it or none
/// that is free.
pub proof fn lemma_unique_kept(before: Seq<NodeView>, after: Seq<NodeView>, spared: ObjectRef)
    requires
        unique(before),
        forall|r: ObjectRef, free: bool|
            r != spared ==> #[trigger] total(after, r, free) <= total(before, r, free),
        total(after, spared, false) <= 1 || total(after, spared, true) == 0,
    ensures
        unique(after),
{
    assert forall|r: ObjectRef| #[trigger] total(after, r, false) <= 1 || total(after, r, true)
        == 0 by {}
}

/// What applying a pod does to the counts of other objects: none has more
/// nodes than before.
pub proof fn lemma_apply_pod_counts(forest: Seq<NodeView>, pod: PodView, r: ObjectRef, free: bool)
    requires
        identified(pod.metadata),
        r != ref_of(ResourceKind::Pod, pod.metadata),
    ensures
        total(apply_pod(forest, pod), r, free) <= total(forest, r, free),
{
    let target = ref_of(ResourceKind::Pod, pod.metadata);
    let cleared = forest_without(forest, target);
    lemma_forest_without_le(forest, forest.len(), target, r, free);
    lemma_pod_node_weight(pod, r, free);
    let i = root_index(cleared, pod.metadata.namespace, 0);
    if i < cleared.len() {
        lemma_root_index_bounds(cleared, pod.metadata.namespace, 0);
        let placed = place_pod(cleared[i], pod);
        lemma_update_count(cleared, i, placed, cleared.len(), r, free);
        match chosen(cleared[i], pod.metadata.namespace, labels_of(pod.metadata)) {
            Some(name) => {
                lemma_adopt_count(cleared[i], pod, labels_of(pod.metadata), name, r, free);
            },
            None => {
                lemma_with_child_count(cleared[i], pod_node(pod), r, free);
            },
        }
    }
}

/// What applying a pod does to its own count: the pod has one node where no
/// service takes it, and else no more nodes than the service that takes it
/// had, counted either way.
pub proof fn lemma_apply_pod_own_count(forest: Seq<NodeView>, pod: PodView, free: bool)
    requires
        identified(pod.metadata),
    ensures
        total(apply_pod(forest, pod), ref_of(ResourceKind::Pod, pod.metadata), free) <= 1
            || exists|name: Seq<char>|
            total(apply_pod(forest, pod), ref_of(ResourceKind::Pod, pod.metadata), false) <= total(
                forest,
                #[trigger] host_ref(pod, name),
                false,
            ) && total(apply_pod(forest, pod), ref_of(ResourceKind::Pod, pod.metadata), true)
                <= total(forest, host_ref(pod, name), true),
{
    let target = ref_of(ResourceKind::Pod, pod.metadata);
    let cleared = forest_without(forest, target);
    let after = apply_pod(forest, pod);
    lemma_forest_without_clears(forest, forest.len(), target, false);
    lemma_forest_without_clears(forest, forest.len(), target, true);
    lemma_pod_node_weight(pod, target, free);
    let i = root_index(cleared, pod.metadata.namespace, 0);
    if i < cleared.len() {
        lemma_root_index_bounds(cleared, pod.metadata.namespace, 0);
        let placed = place_pod(cleared[i], pod);
        lemma_update_count(cleared, i, placed, cleared.len(), target, false);
        lemma_update_count(cleared, i, placed, cleared.len(), target, true);
        lemma_forest_count_parts(cleared, cleared.len(), target, false, i);
        lemma_forest_count_parts(cleared, cleared.len(), target, true, i);
        match chosen(cleared[i], pod.metadata.namespace, labels_of(pod.metadata)) {
            Some(name) => {
                let host = host_ref(pod, name);
                lemma_adopt_count(cleared[i], pod, labels_of(pod.metadata), name, target, false);
                lemma_adopt_count(cleared[i], pod, labels_of(pod.metadata), name, target, true);
                lemma_count_in_total(cleared, cleared.len(), host, false, i);
                lemma_count_in_total(cleared, cleared.len(), host, true, i);
                lemma_forest_without_le(forest, forest.len(), target, host, false);
                lemma_forest_without_le(forest, forest.len(), target, host, true);
            },
            None => {
                lemma_with_child_count(cleared[i], pod_node(pod), target, false);
                lemma_with_child_count(cleared[i], pod_node(pod), target, true);
                crate::counting::lemma_free_le_forest(after, after.len(), target);
            },
        }
    } else {
        crate::counting::lemma_free_le_forest(after, after.len(), target);
    }
}

/// A search for a root gives a position from its start on, at most the
/// length of the forest; where the position lies in the forest, the root of
/// the namespace stands there.
pub proof fn lemma_root_index_bounds(forest: Seq<NodeView>, namespace: Option<Seq<char>>, start: int)
    requires
        0 <= start <= forest.len(),
    ensures
        start <= root_index(forest, namespace, start) <= forest.len(),
        root_index(forest, namespace, start) < forest.len() ==> is_root_for(
            forest[root_index(forest, namespace, start)],
            namespace,
        ),
    decreases forest.len() - start,
{
    if start < forest.len() && !is_root_for(forest[start], namespace) {
        lemma_root_index_bounds(forest, namespace, start + 1);
    }
}

/// A root that is replaced by a root of the same namespace is found where
/// it was.
pub proof fn lemma_root_replaced(
    forest: Seq<NodeView>,
    i: int,
    root: NodeView,
    namespace: Option<Seq<char>>,
    start: int,
)
    requires
        0 <= start <= i < forest.len(),
        root_index(forest, namespace, start) == i,
        is_root_for(root, namespace),
    ensures
        root_index(forest.update(i, root), namespace, start) == i,
    decreases i - start,
{
    if start < i {
        lemma_root_index_bounds(forest, namespace, start + 1);
        lemma_root_replaced(forest, i, root, namespace, start + 1);
    }
}

/// Taking an object out of a forest adds no node for any object.
pub proof fn lemma_forest_without_le_total(
    forest: Seq<NodeView>,
    gone: ObjectRef,
    r: ObjectRef,
    free: bool,
)
    ensures
        total(forest_without(forest, gone), r, free) <= total(forest, r, free),
{
    lemma_forest_without_le(forest, forest.len(), gone, r, free);
}

/// Applying a pod keeps the forest free of doubles.
pub proof fn law_apply_pod_keeps_unique(forest: Seq<NodeView>, pod: PodView)
    requires
        unique(forest),
    ensures
        unique(apply_pod(forest, pod)),
{
    if identified(pod.metadata) {
        let after = apply_pod(forest, pod);
        let target = ref_of(ResourceKind::Pod, pod.metadata);
        assert forall|r: ObjectRef, free: bool| r != target implies #[trigger] total(
            after,
            r,
            free,
        ) <= total(forest, r, free) by {
            lemma_apply_pod_counts(forest, pod, r, free);
        }
        lemma_apply_pod_own_count(forest, pod, false);
        lemma_apply_pod_own_count(forest, pod, true);
        if !(total(after, target, false) <= 1) {
            let name = choose|name: Seq<char>|
                total(after, target, false) <= total(forest, #[trigger] host_ref(pod, name), false)
                    && total(after, target, true) <= total(forest, host_ref(pod, name), true);
        }
        lemma_unique_kept(forest, after, target);
    }
}

/// Once a pod, a service or a route that has a name and a namespace was
/// deleted, it has no node in the forest.
pub proof fn law_delete_leaves_none(
    forest: Seq<NodeView>,
    kind: ResourceKind,
    metadata: ObjectMetaView,
)
    requires
        identified(metadata),
    ensures
        total(remove_object(forest, kind, metadata), ref_of(kind, metadata), false) == 0,
{
    lemma_forest_without_clears(forest, forest.len(), ref_of(kind, metadata), false);
}

// ---------------------------------------------------------------------------
// Services

/// Whether no two of the pods are the same object.
pub open spec fn distinct_pods(pods: Seq<PodView>) -> bool {
    forall|i: int, j: int|
        0 <= i < j < pods.len() ==> ref_of(ResourceKind::Pod, #[trigger] pods[i].metadata)
            != ref_of(ResourceKind::Pod, #[trigger] pods[j].metadata)
}

/// How many of the first `k` pods the service selects and `r` refers to.
pub open spec fn picks(service: ServiceView, pods: Seq<PodView>, k: nat, r: ObjectRef) -> nat
    decreases k,
{
    if k == 0 || k > pods.len() {
        0
    } else {
        picks(service, pods, (k - 1) as nat, r) + (if service_selects_pod(service, pods[k - 1])
            && r == ref_of(ResourceKind::Pod, pods[k - 1].metadata) {
            1nat
        } else {
            0nat
        })
    }
}

/// The nodes of the selected pods hold one node for an object for each
/// selected pod that is the object.
pub proof fn lemma_selected_count(
    service: ServiceView,
    pods: Seq<PodView>,
    k: nat,
    r: ObjectRef,
    free: bool,
)
    requires
        k <= pods.len(),
    ensures
        count_list(
            selected_pods(service, pods, k),
            selected_pods(service, pods, k).len(),
            r,
            free,
        ) == picks(service, pods, k, r),
    decreases k,
{
    if k > 0 {
        lemma_selected_count(service, pods, (k - 1) as nat, r, free);
        let rest = selected_pods(service, pods, (k - 1) as nat);
        if service_selects_pod(service, pods[k - 1]) {
            lemma_pod_node_weight(pods[k - 1], r, free);
            crate::counting::lemma_count_list_prefix(
                rest.push(pod_node(pods[k - 1])),
                rest,
                rest.len(),
                r,
                free,
            );
        }
    }
}

/// Where an object is among the selected pods, one of the pods is it and is
/// selected.
pub proof fn lemma_picks_witness(service: ServiceView, pods: Seq<PodView>, k: nat, r: ObjectRef) -> (j:
    int)
    requires
        k <= pods.len(),
        picks(service, pods, k, r) > 0,
    ensures
        0 <= j < k,
        service_selects_pod(service, pods[j]),
        r == ref_of(ResourceKind::Pod, pods[j].metadata),
    decreases k,
{
    if service_selects_pod(service, pods[k - 1]) && r == ref_of(
        ResourceKind::Pod,
        pods[k - 1].metadata,
    ) {
        k - 1
    } else {
        lemma_picks_witness(service, pods, (k - 1) as nat, r)
    }
}

/// Among pods of which no two are the same object, an object is picked at
/// most once.
pub proof fn lemma_picks_once(service: ServiceView, pods: Seq<PodView>, k: nat, r: ObjectRef)
    requires
        k <= pods.len(),
        distinct_pods(pods),
    ensures
        picks(service, pods, k, r) <= 1,
    decreases k,
{
    if k > 0 {
        lemma_picks_once(service, pods, (k - 1) as nat, r);
        if picks(service, pods, (k - 1) as nat, r) > 0 && r == ref_of(
            ResourceKind::Pod,
            pods[k - 1].metadata,
        ) {
            lemma_picks_witness(service, pods, (k - 1) as nat, r);
        }
    }
}

/// Taking the selected pods out adds no node for any object, and keeps the
/// number of roots.
pub proof fn lemma_without_selected_le(
    forest: Seq<NodeView>,
    service: ServiceView,
    pods: Seq<PodView>,
    k: nat,
    r: ObjectRef,
    free: bool,
)
    requires
        k <= pods.len(),
    ensures
        without_selected(forest, service, pods, k).len() == forest.len(),
        total(without_selected(forest, service, pods, k), r, free) <= total(forest, r, free),
    decreases k,
{
    if k > 0 {
        lemma_without_selected_le(forest, service, pods, (k - 1) as nat, r, free);
        let rest = without_selected(forest, service, pods, (k - 1) as nat);
        if service_selects_pod(service, pods[k - 1]) {
            lemma_forest_without_le(
                rest,
                rest.len(),
                ref_of(ResourceKind::Pod, pods[k - 1].metadata),
                r,
                free,
            );
        }
    }
}

/// Once the selected pods are taken out, none of them has a node.
pub proof fn lemma_without_selected_clears(
    forest: Seq<NodeView>,
    service: ServiceView,
    pods: Seq<PodView>,
    k: nat,
    r: ObjectRef,
    free: bool,
)
    requires
        k <= pods.len(),
        picks(service, pods, k, r) > 0,
    ensures
        total(without_selected(forest, service, pods, k), r, free) == 0,
    decreases k,
{
    let rest = without_selected(forest, service, pods, (k - 1) as nat);
    lemma_without_selected_le(forest, service, pods, (k - 1) as nat, r, free);
    if service_selects_pod(service, pods[k - 1]) {
        let gone = ref_of(ResourceKind::Pod, pods[k - 1].metadata);
        if r == gone {
            lemma_forest_without_clears(rest, rest.len(), gone, free);
        } else {
            lemma_without_selected_clears(forest, service, pods, (k - 1) as nat, r, free);
            lemma_forest_without_le(rest, rest.len(), gone, r, free);
        }
    } else {
        lemma_without_selected_clears(forest, service, pods, (k - 1) as nat, r, free);
    }
}

/// What the node of a service, with its pods, adds to a count: one for the
/// service itself, and one for each selected pod that is the object.
pub proof fn lemma_subtree_weight(service: ServiceView, pods: Seq<PodView>, r: ObjectRef, free: bool)
    ensures
        weight(service_subtree(service, pods), r, free) == hit(service_node(service), r) + picks(
            service,
            pods,
            pods.len(),
            r,
        ),
        hit(service_node(service), r) == 1 <==> r == ref_of(
            ResourceKind::Service,
            service.metadata,
        ),
        r.kind == ResourceKind::Service ==> picks(service, pods, pods.len(), r) == 0,
{
    lemma_selected_count(service, pods, pods.len(), r, free);
    if r.kind == ResourceKind::Service {
        lemma_picks_kind(service, pods, pods.len(), r);
    }
}

/// Only a pod is picked.
pub proof fn lemma_picks_kind(service: ServiceView, pods: Seq<PodView>, k: nat, r: ObjectRef)
    requires
        k <= pods.len(),
        r.kind != ResourceKind::Pod,
    ensures
        picks(service, pods, k, r) == 0,
    decreases k,
{
    if k > 0 {
        lemma_picks_kind(service, pods, (k - 1) as nat, r);
    }
}

/// Copies attached under routes change no count of free nodes, and no count
/// at all of an object that the copy holds no node for.
pub proof fn lemma_fan_out_count(
    nodes: Seq<NodeView>,
    k: nat,
    name: Seq<char>,
    node: NodeView,
    r: ObjectRef,
    free: bool,
)
    requires
        k <= nodes.len(),
        free || weight(node, r, false) == 0,
    ensures
        count_list(fan_out(nodes, name, node), k, r, free) == count_list(nodes, k, r, free),
    decreases k,
{
    if k > 0 {
        lemma_fan_out_count(nodes, (k - 1) as nat, name, node, r, free);
        if node_references(nodes[k - 1], name) {
            lemma_with_child_count(nodes[k - 1], node, r, free);
        }
    }
}

/// What putting a service under a root does to the counts. Directly under
/// the root it adds its weight. Under routes it adds no free node. Where it
/// holds no node for an object, the count of that object stays.
pub proof fn lemma_place_service_count(
    root: NodeView,
    node: NodeView,
    name: Seq<char>,
    r: ObjectRef,
    free: bool,
)
    ensures
        !referenced_among(root.relatives, root.relatives.len(), name) ==> count(
            place_service(root, node, name),
            r,
            free,
        ) == count(root, r, free) + weight(node, r, free),
        referenced_among(root.relatives, root.relatives.len(), name) && (free || weight(
            node,
            r,
            false,
        ) == 0) ==> count(place_service(root, node, name), r, free) == count(root, r, free),
{
    if referenced_among(root.relatives, root.relatives.len(), name) {
        if free || weight(node, r, false) == 0 {
            lemma_fan_out_count(root.relatives, root.relatives.len(), name, node, r, free);
        }
    } else {
        lemma_with_child_count(root, node, r, free);
    }
}

/// Applying a service keeps the forest free of doubles, given that no two
/// of the known pods are the same object.
pub proof fn law_apply_service_keeps_unique(
    forest: Seq<NodeView>,
    service: ServiceView,
    pods: Seq<PodView>,
)
    requires
        unique(forest),
        distinct_pods(pods),
    ensures
        unique(apply_service(forest, service, pods)),
{
    if identified(service.metadata) {
        let after = apply_service(forest, service, pods);
        assert forall|r: ObjectRef| #[trigger] total(after, r, false) <= 1 || total(after, r, true)
            == 0 by {
            lemma_apply_service_counts(forest, service, pods, r);
        }
    }
}

/// What applying a service does to the counts of an object: either neither
/// count grows, or the object has one node, or it has no free node.
pub proof fn lemma_apply_service_counts(
    forest: Seq<NodeView>,
    service: ServiceView,
    pods: Seq<PodView>,
    r: ObjectRef,
)
    requires
        identified(service.metadata),
        distinct_pods(pods),
    ensures
        (total(apply_service(forest, service, pods), r, false) <= total(forest, r, false) && total(
            apply_service(forest, service, pods),
            r,
            true,
        ) <= total(forest, r, true)) || total(apply_service(forest, service, pods), r, false) <= 1
            || total(apply_service(forest, service, pods), r, true) == 0,
        r.kind == ResourceKind::Namespace || r.kind == ResourceKind::HTTPRoute ==> total(
            apply_service(forest, service, pods),
            r,
            false,
        ) <= total(forest, r, false),
{
    let target = ref_of(ResourceKind::Service, service.metadata);
    let removed = forest_without(forest, target);
    let cleared = without_selected(removed, service, pods, pods.len());
    let namespace = service.metadata.namespace;
    let name = text_or_empty(service.metadata.name);
    let i = root_index(cleared, namespace, 0);
    let rooted = if i >= cleared.len() {
        cleared.push(placeholder_namespace(text_or_empty(namespace)))
    } else {
        cleared
    };
    let node = service_subtree(service, pods);
    lemma_root_index_bounds(cleared, namespace, 0);
    let placed = place_service(rooted[i], node, name);
    if r.kind != ResourceKind::Pod {
        lemma_picks_kind(service, pods, pods.len(), r);
    }
    lemma_without_selected_le(removed, service, pods, pods.len(), r, false);
    lemma_without_selected_le(removed, service, pods, pods.len(), r, true);
    lemma_forest_without_le(forest, forest.len(), target, r, false);
    lemma_forest_without_le(forest, forest.len(), target, r, true);
    if i >= cleared.len() {
        lemma_push_count(cleared, placeholder_namespace(text_or_empty(namespace)), r, false);
        lemma_push_count(cleared, placeholder_namespace(text_or_empty(namespace)), r, true);
    }
    lemma_update_count(rooted, i, placed, rooted.len(), r, false);
    lemma_update_count(rooted, i, placed, rooted.len(), r, true);
    lemma_place_service_count(rooted[i], node, name, r, false);
    lemma_place_service_count(rooted[i], node, name, r, true);
    lemma_subtree_weight(service, pods, r, false);
    lemma_subtree_weight(service, pods, r, true);
    lemma_picks_once(service, pods, pods.len(), r);
    if weight(node, r, false) > 0 {
        // The object is the service or one of its pods: it was taken out.
        if r == target {
            lemma_forest_without_clears(forest, forest.len(), target, false);
        } else {
            lemma_without_selected_clears(removed, service, pods, pods.len(), r, false);
        }
        lemma_free_le_forest(rooted, rooted.len(), r);
    }
}

// ---------------------------------------------------------------------------
// Routes, namespaces and the first forest

/// No namespace stands under a root.
pub open spec fn namespaces_on_top(forest: Seq<NodeView>) -> bool {
    forall|r: ObjectRef|
        r.kind == ResourceKind::Namespace ==> #[trigger] total(forest, r, false) == 0
}

/// A step under which no count grows keeps the forest free of doubles and
/// the namespaces on top.
pub proof fn lemma_unique_shrinks(before: Seq<NodeView>, after: Seq<NodeView>)
    requires
        forall|r: ObjectRef, free: bool| #[trigger]
            total(after, r, free) <= total(before, r, free),
    ensures
        unique(before) ==> unique(after),
        namespaces_on_top(before) ==> namespaces_on_top(after),
{
    if unique(before) {
        assert forall|r: ObjectRef| #[trigger] total(after, r, false) <= 1 || total(after, r, true)
            == 0 by {}
    }
    if namespaces_on_top(before) {
        assert forall|r: ObjectRef| r.kind == ResourceKind::Namespace implies #[trigger] total(
            after,
            r,
            false,
        ) == 0 by {}
    }
}

/// Applying a pod keeps the namespaces on top.
pub proof fn lemma_apply_pod_keeps_top(forest: Seq<NodeView>, pod: PodView)
    requires
        namespaces_on_top(forest),
    ensures
        namespaces_on_top(apply_pod(forest, pod)),
{
    if identified(pod.metadata) {
        assert forall|r: ObjectRef| r.kind == ResourceKind::Namespace implies #[trigger] total(
            apply_pod(forest, pod),
            r,
            false,
        ) == 0 by {
            lemma_apply_pod_counts(forest, pod, r, false);
        }
    }
}

/// Applying a service keeps the namespaces on top.
pub proof fn lemma_apply_service_keeps_top(
    forest: Seq<NodeView>,
    service: ServiceView,
    pods: Seq<PodView>,
)
    requires
        namespaces_on_top(forest),
        distinct_pods(pods),
    ensures
        namespaces_on_top(apply_service(forest, service, pods)),
{
    if identified(service.metadata) {
        assert forall|r: ObjectRef| r.kind == ResourceKind::Namespace implies #[trigger] total(
            apply_service(forest, service, pods),
            r,
            false,
        ) == 0 by {
            lemma_apply_service_counts(forest, service, pods, r);
        }
    }
}

/// Applying the services that a route refers to keeps the forest free of
/// doubles and the namespaces on top.
pub proof fn lemma_apply_referenced_keeps(
    forest: Seq<NodeView>,
    route: HTTPRouteView,
    services: Seq<ServiceView>,
    k: nat,
    pods: Seq<PodView>,
)
    requires
        k <= services.len(),
        distinct_pods(pods),
    ensures
        unique(forest) ==> unique(apply_referenced(forest, route, services, k, pods)),
        namespaces_on_top(forest) ==> namespaces_on_top(
            apply_referenced(forest, route, services, k, pods),
        ),
    decreases k,
{
    if k > 0 {
        lemma_apply_referenced_keeps(forest, route, services, (k - 1) as nat, pods);
        let rest = apply_referenced(forest, route, services, (k - 1) as nat, pods);
        if unique(forest) {
            law_apply_service_keeps_unique(rest, services[k - 1], pods);
        }
        if namespaces_on_top(forest) {
            lemma_apply_service_keeps_top(rest, services[k - 1], pods);
        }
    }
}

/// Applying a route keeps the forest free of doubles and the namespaces on
/// top, given that no two of the known pods are the same object.
pub proof fn law_apply_route_keeps_unique(
    forest: Seq<NodeView>,
    route: HTTPRouteView,
    services: Seq<ServiceView>,
    pods: Seq<PodView>,
)
    requires
        distinct_pods(pods),
    ensures
        unique(forest) ==> unique(apply_route(forest, route, services, pods)),
        namespaces_on_top(forest) ==> namespaces_on_top(
            apply_route(forest, route, services, pods),
        ),
{
    if identified(route.metadata) {
        let target = ref_of(ResourceKind::HTTPRoute, route.metadata);
        let cleared = forest_without(forest, target);
        let i = root_index(cleared, route.metadata.namespace, 0);
        lemma_root_index_bounds(cleared, route.metadata.namespace, 0);
        assert forall|r: ObjectRef, free: bool| #[trigger]
            total(cleared, r, free) <= total(forest, r, free) by {
            lemma_forest_without_le(forest, forest.len(), target, r, free);
        }
        lemma_unique_shrinks(forest, cleared);
        if i < cleared.len() {
            let attached = cleared.update(i, with_child(cleared[i], route_node(route)));
            assert forall|r: ObjectRef, free: bool|
                total(attached, r, free) == total(cleared, r, free) + hit(
                    route_node(route),
                    r,
                ) by {
                lemma_update_count(
                    cleared,
                    i,
                    with_child(cleared[i], route_node(route)),
                    cleared.len(),
                    r,
                    free,
                );
                lemma_with_child_count(cleared[i], route_node(route), r, free);
            }
            lemma_forest_without_clears(forest, forest.len(), target, false);
            if unique(forest) {
                assert forall|r: ObjectRef, free: bool| r != target implies #[trigger] total(
                    attached,
                    r,
                    free,
                ) <= total(cleared, r, free) by {}
                lemma_unique_kept(cleared, attached, target);
            }
            if namespaces_on_top(forest) {
                assert forall|r: ObjectRef| r.kind == ResourceKind::Namespace implies #[trigger] total(
                    attached,
                    r,
                    false,
                ) == 0 by {}
            }
            lemma_apply_referenced_keeps(attached, route, services, services.len(), pods);
        }
    }
}

/// Putting in all that is known keeps the forest free of doubles and the
/// namespaces on top.
pub proof fn lemma_populate_keeps(
    forest: Seq<NodeView>,
    scope: Option<Seq<char>>,
    routes: Seq<HTTPRouteView>,
    services: Seq<ServiceView>,
    pods: Seq<PodView>,
)
    requires
        distinct_pods(pods),
    ensures
        unique(forest) ==> unique(populate(forest, scope, routes, services, pods)),
        namespaces_on_top(forest) ==> namespaces_on_top(
            populate(forest, scope, routes, services, pods),
        ),
{
    lemma_apply_routes_keep(forest, scope, routes, routes.len(), services, pods);
    let routed = apply_routes(forest, scope, routes, routes.len(), services, pods);
    lemma_apply_services_keep(routed, scope, services, services.len(), pods);
    let served = apply_services(routed, scope, services, services.len(), pods);
    lemma_apply_missing_pods_keep(served, scope, pods, pods.len());
}

proof fn lemma_apply_routes_keep(
    forest: Seq<NodeView>,
    scope: Option<Seq<char>>,
    routes: Seq<HTTPRouteView>,
    k: nat,
    services: Seq<ServiceView>,
    pods: Seq<PodView>,
)
    requires
        k <= routes.len(),
        distinct_pods(pods),
    ensures
        unique(forest) ==> unique(apply_routes(forest, scope, routes, k, services, pods)),
        namespaces_on_top(forest) ==> namespaces_on_top(
            apply_routes(forest, scope, routes, k, services, pods),
        ),
    decreases k,
{
    if k > 0 {
        lemma_apply_routes_keep(forest, scope, routes, (k - 1) as nat, services, pods);
        let rest = apply_routes(forest, scope, routes, (k - 1) as nat, services, pods);
        law_apply_route_keeps_unique(rest, routes[k - 1], services, pods);
    }
}

proof fn lemma_apply_services_keep(
    forest: Seq<NodeView>,
    scope: Option<Seq<char>>,
    services: Seq<ServiceView>,
    k: nat,
    pods: Seq<PodView>,
)
    requires
        k <= services.len(),
        distinct_pods(pods),
    ensures
        unique(forest) ==> unique(apply_services(forest, scope, services, k, pods)),
        namespaces_on_top(forest) ==> namespaces_on_top(
            apply_services(forest, scope, services, k, pods),
        ),
    decreases k,
{
    if k > 0 {
        lemma_apply_services_keep(forest, scope, services, (k - 1) as nat, pods);
        let rest = apply_services(forest, scope, services, (k - 1) as nat, pods);
        if unique(forest) {
            law_apply_service_keeps_unique(rest, services[k - 1], pods);
        }
        if namespaces_on_top(forest) {
            lemma_apply_service_keeps_top(rest, services[k - 1], pods);
        }
    }
}

proof fn lemma_apply_missing_pods_keep(
    forest: Seq<NodeView>,
    scope: Option<Seq<char>>,
    pods: Seq<PodView>,
    k: nat,
)
    requires
        k <= pods.len(),
    ensures
        unique(forest) ==> unique(apply_missing_pods(forest, scope, pods, k)),
        namespaces_on_top(forest) ==> namespaces_on_top(
            apply_missing_pods(forest, scope, pods, k),
        ),
    decreases k,
{
    if k > 0 {
        lemma_apply_missing_pods_keep(forest, scope, pods, (k - 1) as nat);
        let rest = apply_missing_pods(forest, scope, pods, (k - 1) as nat);
        if unique(forest) {
            law_apply_pod_keeps_unique(rest, pods[k - 1]);
        }
        if namespaces_on_top(forest) {
            lemma_apply_pod_keeps_top(rest, pods[k - 1]);
        }
    }
}

/// Applying a namespace keeps the forest free of doubles and the namespaces
/// on top, given that no two of the known pods are the same object.
pub proof fn law_apply_namespace_keeps_unique(
    forest: Seq<NodeView>,
    namespace: NamespaceView,
    routes: Seq<HTTPRouteView>,
    services: Seq<ServiceView>,
    pods: Seq<PodView>,
)
    requires
        distinct_pods(pods),
    ensures
        unique(forest) ==> unique(apply_namespace(forest, namespace, routes, services, pods)),
        namespaces_on_top(forest) ==> namespaces_on_top(
            apply_namespace(forest, namespace, routes, services, pods),
        ),
{
    if namespace.metadata.name is Some {
        let i = root_index(forest, namespace.metadata.name, 0);
        lemma_root_index_bounds(forest, namespace.metadata.name, 0);
        if i < forest.len() {
            let root = NodeView { relatives: forest[i].relatives, ..namespace_node(namespace) };
            let after = forest.update(i, root);
            assert forall|r: ObjectRef, free: bool| #[trigger]
                total(after, r, free) <= total(forest, r, free) by {
                lemma_update_count(forest, i, root, forest.len(), r, free);
            }
            lemma_unique_shrinks(forest, after);
        } else {
            let grown = forest.push(namespace_node(namespace));
            assert forall|r: ObjectRef, free: bool| #[trigger]
                total(grown, r, free) <= total(forest, r, free) by {
                lemma_push_count(forest, namespace_node(namespace), r, free);
            }
            lemma_unique_shrinks(forest, grown);
            lemma_populate_keeps(grown, namespace.metadata.name, routes, services, pods);
        }
    }
}

/// Dropping roots adds no node.
pub proof fn lemma_roots_without_le(
    forest: Seq<NodeView>,
    k: nat,
    name: Seq<char>,
    r: ObjectRef,
    free: bool,
)
    requires
        k <= forest.len(),
    ensures
        total(roots_without(forest, k, name), r, free) <= forest_count(forest, k, r, free),
    decreases k,
{
    if k > 0 {
        lemma_roots_without_le(forest, (k - 1) as nat, name, r, free);
        let rest = roots_without(forest, (k - 1) as nat, name);
        if !(forest[k - 1].kind == ResourceKind::Namespace && forest[k - 1].name == name) {
            lemma_push_count(rest, forest[k - 1], r, free);
        }
    }
}

/// Deleting a namespace keeps the forest free of doubles and the namespaces
/// on top.
pub proof fn law_delete_namespace_keeps_unique(forest: Seq<NodeView>, namespace: NamespaceView)
    ensures
        unique(forest) ==> unique(remove_namespace(forest, namespace)),
        namespaces_on_top(forest) ==> namespaces_on_top(remove_namespace(forest, namespace)),
{
    match namespace.metadata.name {
        Some(name) => {
            let after = remove_namespace(forest, namespace);
            assert forall|r: ObjectRef, free: bool| #[trigger]
                total(after, r, free) <= total(forest, r, free) by {
                lemma_roots_without_le(forest, forest.len(), name, r, free);
            }
            lemma_unique_shrinks(forest, after);
        },
        None => {},
    }
}

/// Nothing stands under the roots made for a list of namespaces.
pub proof fn lemma_roots_for_bare(namespaces: Seq<NamespaceView>, k: nat, r: ObjectRef, free: bool)
    requires
        k <= namespaces.len(),
    ensures
        total(roots_for(namespaces, k), r, free) == 0,
    decreases k,
{
    if k > 0 {
        lemma_roots_for_bare(namespaces, (k - 1) as nat, r, free);
        let rest = roots_for(namespaces, (k - 1) as nat);
        lemma_push_count(rest, namespace_node(namespaces[k - 1]), r, free);
    }
}

/// The first forest is free of doubles and has the namespaces on top, given
/// that no two of the known pods are the same object.
pub proof fn law_initial_forest_unique(
    namespaces: Seq<NamespaceView>,
    routes: Seq<HTTPRouteView>,
    services: Seq<ServiceView>,
    pods: Seq<PodView>,
)
    requires
        distinct_pods(pods),
    ensures
        unique(initial_forest(namespaces, routes, services, pods)),
        namespaces_on_top(initial_forest(namespaces, routes, services, pods)),
{
    let roots = roots_for(namespaces, namespaces.len());
    assert forall|r: ObjectRef| #[trigger] total(roots, r, false) <= 1 || total(roots, r, true)
        == 0 by {
        lemma_roots_for_bare(namespaces, namespaces.len(), r, false);
    }
    assert forall|r: ObjectRef| r.kind == ResourceKind::Namespace implies #[trigger] total(
        roots,
        r,
        false,
    ) == 0 by {
        lemma_roots_for_bare(namespaces, namespaces.len(), r, false);
    }
    lemma_populate_keeps(roots, None, routes, services, pods);
}

// ---------------------------------------------------------------------------
// One root for each namespace

/// Whether a node has the shape of a root: it is a namespace and is called
/// what its identifying part says.
pub open spec fn root_shape(node: NodeView) -> bool {
    node.kind == ResourceKind::Namespace && node.metadata.name == Some(node.name)
}

/// Every root is a namespace, and no two roots are the same namespace.
pub open spec fn one_root_each(forest: Seq<NodeView>) -> bool {
    &&& forall|i: int| 0 <= i < forest.len() ==> root_shape(#[trigger] forest[i])
    &&& forall|i: int, j: int|
        0 <= i < j < forest.len() ==> (#[trigger] forest[i]).name != (#[trigger] forest[j]).name
}

/// Whether two forests have the same roots, whatever stands under them.
pub open spec fn same_tops(a: Seq<NodeView>, b: Seq<NodeView>) -> bool {
    &&& a.len() == b.len()
    &&& forall|i: int|
        0 <= i < a.len() ==> (#[trigger] a[i]).kind == b[i].kind && a[i].name == b[i].name
            && a[i].metadata == b[i].metadata && a[i].spec == b[i].spec
            && a[i].resource_metadata == b[i].resource_metadata
}

/// Forests with the same roots give the same answer to a search for a root.
pub proof fn lemma_same_tops_index(
    a: Seq<NodeView>,
    b: Seq<NodeView>,
    namespace: Option<Seq<char>>,
    start: int,
)
    requires
        same_tops(a, b),
        0 <= start,
    ensures
        root_index(a, namespace, start) == root_index(b, namespace, start),
    decreases a.len() - start,
{
    if start < a.len() {
        if !is_root_for(a[start], namespace) {
            lemma_same_tops_index(a, b, namespace, start + 1);
        }
    }
}

/// Forests with the same roots have one root each together.
pub proof fn lemma_same_tops_keep(a: Seq<NodeView>, b: Seq<NodeView>)
    requires
        same_tops(a, b),
        one_root_each(a),
    ensures
        one_root_each(b),
{
    assert forall|i: int| 0 <= i < b.len() implies root_shape(#[trigger] b[i]) by {
        assert(root_shape(a[i]));
    }
    assert forall|i: int, j: int| 0 <= i < j < b.len() implies (#[trigger] b[i]).name != (
    #[trigger] b[j]).name by {
        assert(a[i].name != a[j].name);
    }
}

/// Where a search finds no root, no node from its start on is a root of the
/// namespace.
pub proof fn lemma_root_index_none(
    forest: Seq<NodeView>,
    namespace: Option<Seq<char>>,
    start: int,
    j: int,
)
    requires
        0 <= start <= j < forest.len(),
        root_index(forest, namespace, start) >= forest.len(),
    ensures
        !is_root_for(forest[j], namespace),
    decreases j - start,
{
    lemma_root_index_bounds(forest, namespace, start);
    if start < j {
        if is_root_for(forest[start], namespace) {
        } else {
            lemma_root_index_none(forest, namespace, start + 1, j);
        }
    }
}

/// A root added for a namespace that has none keeps one root each.
pub proof fn lemma_push_root_keeps(forest: Seq<NodeView>, root: NodeView)
    requires
        one_root_each(forest),
        root_shape(root),
        root_index(forest, Some(root.name), 0) >= forest.len(),
    ensures
        one_root_each(forest.push(root)),
{
    let grown = forest.push(root);
    assert forall|i: int| 0 <= i < grown.len() implies root_shape(#[trigger] grown[i]) by {}
    assert forall|i: int, j: int| 0 <= i < j < grown.len() implies (#[trigger] grown[i]).name != (
    #[trigger] grown[j]).name by {
        if j < forest.len() {
        } else {
            lemma_root_index_none(forest, Some(root.name), 0, i);
        }
    }
}

/// Taking an object out keeps the roots.
pub proof fn lemma_without_tops(forest: Seq<NodeView>, r: ObjectRef)
    ensures
        same_tops(forest, forest_without(forest, r)),
{
}

/// Taking the selected pods out keeps the roots.
pub proof fn lemma_without_selected_tops(
    forest: Seq<NodeView>,
    service: ServiceView,
    pods: Seq<PodView>,
    k: nat,
)
    requires
        k <= pods.len(),
    ensures
        same_tops(forest, without_selected(forest, service, pods, k)),
    decreases k,
{
    if k > 0 {
        lemma_without_selected_tops(forest, service, pods, (k - 1) as nat);
    }
}

/// Applying a pod keeps one root for each namespace.
pub proof fn lemma_apply_pod_roots(forest: Seq<NodeView>, pod: PodView)
    requires
        one_root_each(forest),
    ensures
        one_root_each(apply_pod(forest, pod)),
{
    if identified(pod.metadata) {
        let cleared = forest_without(forest, ref_of(ResourceKind::Pod, pod.metadata));
        lemma_root_index_bounds(cleared, pod.metadata.namespace, 0);
        lemma_same_tops_keep(forest, apply_pod(forest, pod));
    }
}

/// Applying a service keeps one root for each namespace.
pub proof fn lemma_apply_service_roots(
    forest: Seq<NodeView>,
    service: ServiceView,
    pods: Seq<PodView>,
)
    requires
        one_root_each(forest),
    ensures
        one_root_each(apply_service(forest, service, pods)),
{
    if identified(service.metadata) {
        let removed = forest_without(forest, ref_of(ResourceKind::Service, service.metadata));
        let cleared = without_selected(removed, service, pods, pods.len());
        lemma_without_selected_tops(removed, service, pods, pods.len());
        lemma_same_tops_keep(forest, removed);
        lemma_same_tops_keep(removed, cleared);
        let namespace = service.metadata.namespace;
        let i = root_index(cleared, namespace, 0);
        lemma_root_index_bounds(cleared, namespace, 0);
        let rooted = if i >= cleared.len() {
            cleared.push(placeholder_namespace(text_or_empty(namespace)))
        } else {
            cleared
        };
        if i >= cleared.len() {
            lemma_push_root_keeps(cleared, placeholder_namespace(text_or_empty(namespace)));
        }
        let after = apply_service(forest, service, pods);
        lemma_same_tops_keep(rooted, after);
    }
}

proof fn lemma_apply_referenced_roots(
    forest: Seq<NodeView>,
    route: HTTPRouteView,
    services: Seq<ServiceView>,
    k: nat,
    pods: Seq<PodView>,
)
    requires
        k <= services.len(),
        one_root_each(forest),
    ensures
        one_root_each(apply_referenced(forest, route, services, k, pods)),
    decreases k,
{
    if k > 0 {
        lemma_apply_referenced_roots(forest, route, services, (k - 1) as nat, pods);
        lemma_apply_service_roots(
            apply_referenced(forest, route, services, (k - 1) as nat, pods),
            services[k - 1],
            pods,
        );
    }
}

/// Applying a route keeps one root for each namespace.
pub proof fn lemma_apply_route_roots(
    forest: Seq<NodeView>,
    route: HTTPRouteView,
    services: Seq<ServiceView>,
    pods: Seq<PodView>,
)
    requires
        one_root_each(forest),
    ensures
        one_root_each(apply_route(forest, route, services, pods)),
{
    if identified(route.metadata) {
        let cleared = forest_without(forest, ref_of(ResourceKind::HTTPRoute, route.metadata));
        let i = root_index(cleared, route.metadata.namespace, 0);
        lemma_root_index_bounds(cleared, route.metadata.namespace, 0);
        lemma_same_tops_keep(forest, cleared);
        if i < cleared.len() {
            let attached = cleared.update(i, with_child(cleared[i], route_node(route)));
            lemma_same_tops_keep(cleared, attached);
            lemma_apply_referenced_roots(attached, route, services, services.len(), pods);
        }
    }
}

proof fn lemma_populate_roots(
    forest: Seq<NodeView>,
    scope: Option<Seq<char>>,
    routes: Seq<HTTPRouteView>,
    services: Seq<ServiceView>,
    pods: Seq<PodView>,
)
    requires
        one_root_each(forest),
    ensures
        one_root_each(populate(forest, scope, routes, services, pods)),
{
    lemma_apply_routes_roots(forest, scope, routes, routes.len(), services, pods);
    let routed = apply_routes(forest, scope, routes, routes.len(), services, pods);
    lemma_apply_services_roots(routed, scope, services, services.len(), pods);
    let served = apply_services(routed, scope, services, services.len(), pods);
    lemma_apply_missing_pods_roots(served, scope, pods, pods.len());
}

proof fn lemma_apply_routes_roots(
    forest: Seq<NodeView>,
    scope: Option<Seq<char>>,
    routes: Seq<HTTPRouteView>,
    k: nat,
    services: Seq<ServiceView>,
    pods: Seq<PodView>,
)
    requires
        k <= routes.len(),
        one_root_each(forest),
    ensures
        one_root_each(apply_routes(forest, scope, routes, k, services, pods)),
    decreases k,
{
    if k > 0 {
        lemma_apply_routes_roots(forest, scope, routes, (k - 1) as nat, services, pods);
        lemma_apply_route_roots(
            apply_routes(forest, scope, routes, (k - 1) as nat, services, pods),
            routes[k - 1],
            services,
            pods,
        );
    }
}

proof fn lemma_apply_services_roots(
    forest: Seq<NodeView>,
    scope: Option<Seq<char>>,
    services: Seq<ServiceView>,
    k: nat,
    pods: Seq<PodView>,
)
    requires
        k <= services.len(),
        one_root_each(forest),
    ensures
        one_root_each(apply_services(forest, scope, services, k, pods)),
    decreases k,
{
    if k > 0 {
        lemma_apply_services_roots(forest, scope, services, (k - 1) as nat, pods);
        lemma_apply_service_roots(
            apply_services(forest, scope, services, (k - 1) as nat, pods),
            services[k - 1],
            pods,
        );
    }
}

proof fn lemma_apply_missing_pods_roots(
    forest: Seq<NodeView>,
    scope: Option<Seq<char>>,
    pods: Seq<PodView>,
    k: nat,
)
    requires
        k <= pods.len(),
        one_root_each(forest),
    ensures
        one_root_each(apply_missing_pods(forest, scope, pods, k)),
    decreases k,
{
    if k > 0 {
        lemma_apply_missing_pods_roots(forest, scope, pods, (k - 1) as nat);
        lemma_apply_pod_roots(apply_missing_pods(forest, scope, pods, (k - 1) as nat), pods[k - 1]);
    }
}

/// Applying a namespace keeps one root for each namespace.
pub proof fn lemma_apply_namespace_roots(
    forest: Seq<NodeView>,
    namespace: NamespaceView,
    routes: Seq<HTTPRouteView>,
    services: Seq<ServiceView>,
    pods: Seq<PodView>,
)
    requires
        one_root_each(forest),
    ensures
        one_root_each(apply_namespace(forest, namespace, routes, services, pods)),
{
    if namespace.metadata.name is Some {
        let i = root_index(forest, namespace.metadata.name, 0);
        lemma_root_index_bounds(forest, namespace.metadata.name, 0);
        if i < forest.len() {
            let root = NodeView { relatives: forest[i].relatives, ..namespace_node(namespace) };
            let after = forest.update(i, root);
            assert forall|a: int| 0 <= a < after.len() implies root_shape(#[trigger] after[a]) by {}
            assert forall|a: int, b: int| 0 <= a < b < after.len() implies (#[trigger] after[a]).name
                != (#[trigger] after[b]).name by {}
        } else {
            lemma_push_root_keeps(forest, namespace_node(namespace));
            lemma_populate_roots(
                forest.push(namespace_node(namespace)),
                namespace.metadata.name,
                routes,
                services,
                pods,
            );
        }
    }
}

/// Where the root at position `p` of what is left of the first `k` roots
/// stood before the namespace called `name` was dropped.
pub open spec fn origin(forest: Seq<NodeView>, k: nat, name: Seq<char>, p: int) -> int
    decreases k,
{
    if k == 0 || k > forest.len() {
        0
    } else if (forest[k - 1].kind == ResourceKind::Namespace && forest[k - 1].name == name) || p
        < roots_without(forest, (k - 1) as nat, name).len() {
        origin(forest, (k - 1) as nat, name, p)
    } else {
        k - 1
    }
}

/// Each root that is left was a root before.
pub proof fn lemma_origin(forest: Seq<NodeView>, k: nat, name: Seq<char>, p: int)
    requires
        k <= forest.len(),
        0 <= p < roots_without(forest, k, name).len(),
    ensures
        0 <= origin(forest, k, name, p) < k,
        roots_without(forest, k, name)[p] == forest[origin(forest, k, name, p)],
    decreases k,
{
    if k > 0 {
        let rest = roots_without(forest, (k - 1) as nat, name);
        if (forest[k - 1].kind == ResourceKind::Namespace && forest[k - 1].name == name) || p
            < rest.len() {
            lemma_origin(forest, (k - 1) as nat, name, p);
        }
    }
}

/// The roots that are left stand in the order they stood in.
pub proof fn lemma_origin_order(forest: Seq<NodeView>, k: nat, name: Seq<char>, lo: int, hi: int)
    requires
        k <= forest.len(),
        0 <= lo < hi < roots_without(forest, k, name).len(),
    ensures
        origin(forest, k, name, lo) < origin(forest, k, name, hi),
    decreases k,
{
    if k > 0 {
        let rest = roots_without(forest, (k - 1) as nat, name);
        if (forest[k - 1].kind == ResourceKind::Namespace && forest[k - 1].name == name) || hi
            < rest.len() {
            lemma_origin_order(forest, (k - 1) as nat, name, lo, hi);
        } else {
            lemma_origin(forest, (k - 1) as nat, name, lo);
        }
    }
}

/// Deleting a namespace keeps one root for each namespace.
pub proof fn lemma_delete_namespace_roots(forest: Seq<NodeView>, namespace: NamespaceView)
    requires
        one_root_each(forest),
    ensures
        one_root_each(remove_namespace(forest, namespace)),
{
    match namespace.metadata.name {
        Some(name) => {
            let after = roots_without(forest, forest.len(), name);
            assert forall|i: int| 0 <= i < after.len() implies root_shape(#[trigger] after[i]) by {
                lemma_origin(forest, forest.len(), name, i);
            }
            assert forall|i: int, j: int| 0 <= i < j < after.len() implies (#[trigger] after[i]).name
                != (#[trigger] after[j]).name by {
                lemma_origin(forest, forest.len(), name, i);
                lemma_origin(forest, forest.len(), name, j);
                lemma_origin_order(forest, forest.len(), name, i, j);
            }
        },
        None => {},
    }
}

/// The roots made for a list of namespaces are one for each.
pub proof fn lemma_roots_for_each(namespaces: Seq<NamespaceView>, k: nat)
    requires
        k <= namespaces.len(),
    ensures
        one_root_each(roots_for(namespaces, k)),
    decreases k,
{
    if k > 0 {
        lemma_roots_for_each(namespaces, (k - 1) as nat);
        let rest = roots_for(namespaces, (k - 1) as nat);
        if namespaces[k - 1].metadata.name is Some && root_index(
            rest,
            namespaces[k - 1].metadata.name,
            0,
        ) >= rest.len() {
            lemma_push_root_keeps(rest, namespace_node(namespaces[k - 1]));
        }
    }
}

// ---------------------------------------------------------------------------
// Whatever notifications arrive

/// The forest is in order: there is one root for each namespace, no
/// namespace stands under a root, every node stands under the root of the
/// namespace it lives in, and no object stands in two places, the fan-out
/// under routes aside.
pub open spec fn consistent(forest: Seq<NodeView>) -> bool {
    one_root_each(forest) && namespaces_on_top(forest) && at_home(forest) && unique(forest)
}

/// A notification of one of the four feeds, together with what is known of
/// the other kinds at the moment it arrives.
pub enum Notification {
    Pod(WatchEvent<PodView>),
    Service(WatchEvent<ServiceView>, Seq<PodView>),
    Route(WatchEvent<HTTPRouteView>, Seq<ServiceView>, Seq<PodView>),
    Namespace(
        WatchEvent<NamespaceView>,
        Seq<HTTPRouteView>,
        Seq<ServiceView>,
        Seq<PodView>,
    ),
}

/// The pods known when a notification arrives.
pub open spec fn known_pods(notification: Notification) -> Seq<PodView> {
    match notification {
        Notification::Pod(_) => Seq::empty(),
        Notification::Service(_, pods) => pods,
        Notification::Route(_, _, pods) => pods,
        Notification::Namespace(_, _, _, pods) => pods,
    }
}

/// The forest after a notification.
pub open spec fn after(forest: Seq<NodeView>, notification: Notification) -> Seq<NodeView> {
    match notification {
        Notification::Pod(event) => after_pod_event(forest, event),
        Notification::Service(event, pods) => after_service_event(forest, event, pods),
        Notification::Route(event, services, pods) => after_httproute_event(
            forest,
            event,
            services,
            pods,
        ),
        Notification::Namespace(event, routes, services, pods) => after_namespace_event(
            forest,
            event,
            routes,
            services,
            pods,
        ),
    }
}

/// The forest after the first `k` notifications, in their order.
pub open spec fn after_all(forest: Seq<NodeView>, notifications: Seq<Notification>, k: nat) -> Seq<
    NodeView,
>
    decreases k,
{
    if k == 0 || k > notifications.len() {
        forest
    } else {
        after(after_all(forest, notifications, (k - 1) as nat), notifications[k - 1])
    }
}

/// A notification leaves a forest that is in order in order, given that no
/// two of the pods known when it arrives are the same object.
pub proof fn law_notification_keeps_order(forest: Seq<NodeView>, notification: Notification)
    requires
        consistent(forest),
        distinct_pods(known_pods(notification)),
    ensures
        consistent(after(forest, notification)),
{
    match notification {
        Notification::Pod(event) => match event {
            WatchEvent::Apply(pod) => {
                law_apply_pod_keeps_unique(forest, pod);
                lemma_apply_pod_keeps_top(forest, pod);
                lemma_apply_pod_roots(forest, pod);
                lemma_apply_pod_home(forest, pod);
            },
            WatchEvent::Delete(pod) => {
                law_delete_keeps_order(forest, ResourceKind::Pod, pod.metadata);
            },
            _ => {},
        },
        Notification::Service(event, pods) => match event {
            WatchEvent::Apply(service) => {
                law_apply_service_keeps_unique(forest, service, pods);
                lemma_apply_service_keeps_top(forest, service, pods);
                lemma_apply_service_roots(forest, service, pods);
                lemma_apply_service_home(forest, service, pods);
            },
            WatchEvent::Delete(service) => {
                law_delete_keeps_order(forest, ResourceKind::Service, service.metadata);
            },
            _ => {},
        },
        Notification::Route(event, services, pods) => match event {
            WatchEvent::Apply(route) => {
                law_apply_route_keeps_unique(forest, route, services, pods);
                lemma_apply_route_roots(forest, route, services, pods);
                lemma_apply_route_home(forest, route, services, pods);
            },
            WatchEvent::Delete(route) => {
                law_delete_keeps_order(forest, ResourceKind::HTTPRoute, route.metadata);
            },
            _ => {},
        },
        Notification::Namespace(event, routes, services, pods) => match event {
            WatchEvent::Apply(namespace) => {
                law_apply_namespace_keeps_unique(forest, namespace, routes, services, pods);
                lemma_apply_namespace_roots(forest, namespace, routes, services, pods);
                lemma_apply_namespace_home(forest, namespace, routes, services, pods);
            },
            WatchEvent::Delete(namespace) => {
                law_delete_namespace_keeps_unique(forest, namespace);
                lemma_delete_namespace_roots(forest, namespace);
                lemma_delete_namespace_home(forest, namespace);
            },
            _ => {},
        },
    }
}

/// Deleting a pod, a service or a route leaves a forest that is in order in
/// order.
pub proof fn law_delete_keeps_order(forest: Seq<NodeView>, kind: ResourceKind, metadata: ObjectMetaView)
    requires
        consistent(forest),
    ensures
        consistent(remove_object(forest, kind, metadata)),
{
    if identified(metadata) {
        let target = ref_of(kind, metadata);
        let after = remove_object(forest, kind, metadata);
        assert forall|r: ObjectRef, free: bool| #[trigger]
            total(after, r, free) <= total(forest, r, free) by {
            lemma_forest_without_le(forest, forest.len(), target, r, free);
        }
        lemma_unique_shrinks(forest, after);
        lemma_same_tops_keep(forest, after);
        lemma_delete_home(forest, kind, metadata);
    }
}

/// Uniqueness: whatever notifications arrive, in whatever order, a forest
/// that was in order stays in order: one root for each namespace, no
/// namespace under a root, and no pod, service or route in two places, but
/// for the copies of a service, with its pods, under the routes that refer
/// to it. It is taken that each notification comes with pods of which no
/// two are the same object.
pub proof fn law_uniqueness(forest: Seq<NodeView>, notifications: Seq<Notification>, k: nat)
    requires
        consistent(forest),
        k <= notifications.len(),
        forall|i: int|
            0 <= i < notifications.len() ==> distinct_pods(known_pods(#[trigger] notifications[i])),
    ensures
        consistent(after_all(forest, notifications, k)),
    decreases k,
{
    if k > 0 {
        law_uniqueness(forest, notifications, (k - 1) as nat);
        law_notification_keeps_order(
            after_all(forest, notifications, (k - 1) as nat),
            notifications[k - 1],
        );
    }
}

/// The forest built at the start is in order, given that no two of the
/// known pods are the same object.
pub proof fn law_initial_forest_in_order(
    namespaces: Seq<NamespaceView>,
    routes: Seq<HTTPRouteView>,
    services: Seq<ServiceView>,
    pods: Seq<PodView>,
)
    requires
        distinct_pods(pods),
    ensures
        consistent(initial_forest(namespaces, routes, services, pods)),
{
    law_initial_forest_unique(namespaces, routes, services, pods);
    law_initial_forest_at_home(namespaces, routes, services, pods);
    lemma_roots_for_each(namespaces, namespaces.len());
    lemma_populate_roots(roots_for(namespaces, namespaces.len()), None, routes, services, pods);
}

// ---------------------------------------------------------------------------
// A fill makes no root

/// Having the same roots goes on from step to step.
pub proof fn lemma_same_tops_chain(a: Seq<NodeView>, b: Seq<NodeView>, c: Seq<NodeView>)
    requires
        same_tops(a, b),
        same_tops(b, c),
    ensures
        same_tops(a, c),
{
    assert forall|i: int| 0 <= i < a.len() implies (#[trigger] a[i]).kind == c[i].kind && a[i].name
        == c[i].name && a[i].metadata == c[i].metadata && a[i].spec == c[i].spec
        && a[i].resource_metadata == c[i].resource_metadata by {}
}

/// Applying a pod keeps the roots.
pub proof fn lemma_apply_pod_same_tops(forest: Seq<NodeView>, pod: PodView)
    ensures
        same_tops(forest, apply_pod(forest, pod)),
{
    if identified(pod.metadata) {
        let cleared = forest_without(forest, ref_of(ResourceKind::Pod, pod.metadata));
        lemma_root_index_bounds(cleared, pod.metadata.namespace, 0);
    }
}

/// Applying a service whose namespace has a root keeps the roots.
pub proof fn lemma_apply_service_same_tops(
    forest: Seq<NodeView>,
    service: ServiceView,
    pods: Seq<PodView>,
)
    requires
        root_index(forest, service.metadata.namespace, 0) < forest.len(),
    ensures
        same_tops(forest, apply_service(forest, service, pods)),
{
    if identified(service.metadata) {
        let removed = forest_without(forest, ref_of(ResourceKind::Service, service.metadata));
        let cleared = without_selected(removed, service, pods, pods.len());
        lemma_without_selected_tops(removed, service, pods, pods.len());
        lemma_same_tops_chain(forest, removed, cleared);
        lemma_same_tops_index(forest, cleared, service.metadata.namespace, 0);
        lemma_root_index_bounds(cleared, service.metadata.namespace, 0);
        let after = apply_service(forest, service, pods);
        lemma_same_tops_chain(forest, cleared, after);
    }
}

proof fn lemma_apply_referenced_same_tops(
    forest: Seq<NodeView>,
    route: HTTPRouteView,
    services: Seq<ServiceView>,
    k: nat,
    pods: Seq<PodView>,
)
    requires
        k <= services.len(),
        root_index(forest, route.metadata.namespace, 0) < forest.len(),
    ensures
        same_tops(forest, apply_referenced(forest, route, services, k, pods)),
    decreases k,
{
    if k > 0 {
        lemma_apply_referenced_same_tops(forest, route, services, (k - 1) as nat, pods);
        let rest = apply_referenced(forest, route, services, (k - 1) as nat, pods);
        if crate::rules::route_references_service(route, services[k - 1]) {
            lemma_same_tops_index(forest, rest, route.metadata.namespace, 0);
            lemma_apply_service_same_tops(rest, services[k - 1], pods);
            lemma_same_tops_chain(forest, rest, apply_service(rest, services[k - 1], pods));
        }
    }
}

/// Applying a route keeps the roots.
pub proof fn lemma_apply_route_same_tops(
    forest: Seq<NodeView>,
    route: HTTPRouteView,
    services: Seq<ServiceView>,
    pods: Seq<PodView>,
)
    ensures
        same_tops(forest, apply_route(forest, route, services, pods)),
{
    if identified(route.metadata) {
        let cleared = forest_without(forest, ref_of(ResourceKind::HTTPRoute, route.metadata));
        let i = root_index(cleared, route.metadata.namespace, 0);
        lemma_root_index_bounds(cleared, route.metadata.namespace, 0);
        if i < cleared.len() {
            let attached = cleared.update(i, with_child(cleared[i], route_node(route)));
            lemma_root_replaced(
                cleared,
                i,
                with_child(cleared[i], route_node(route)),
                route.metadata.namespace,
                0,
            );
            lemma_apply_referenced_same_tops(attached, route, services, services.len(), pods);
            lemma_same_tops_chain(forest, cleared, attached);
            lemma_same_tops_chain(
                forest,
                attached,
                apply_referenced(attached, route, services, services.len(), pods),
            );
        }
    }
}

/// A fill keeps the roots: it adds none and changes none.
pub proof fn law_fill_keeps_roots(
    forest: Seq<NodeView>,
    scope: Option<Seq<char>>,
    routes: Seq<HTTPRouteView>,
    services: Seq<ServiceView>,
    pods: Seq<PodView>,
)
    ensures
        same_tops(forest, populate(forest, scope, routes, services, pods)),
{
    lemma_apply_routes_same_tops(forest, scope, routes, routes.len(), services, pods);
    let routed = apply_routes(forest, scope, routes, routes.len(), services, pods);
    lemma_apply_services_same_tops(routed, scope, services, services.len(), pods);
    let served = apply_services(routed, scope, services, services.len(), pods);
    lemma_apply_missing_pods_same_tops(served, scope, pods, pods.len());
    lemma_same_tops_chain(forest, routed, served);
    lemma_same_tops_chain(forest, served, apply_missing_pods(served, scope, pods, pods.len()));
}

proof fn lemma_apply_routes_same_tops(
    forest: Seq<NodeView>,
    scope: Option<Seq<char>>,
    routes: Seq<HTTPRouteView>,
    k: nat,
    services: Seq<ServiceView>,
    pods: Seq<PodView>,
)
    requires
        k <= routes.len(),
    ensures
        same_tops(forest, apply_routes(forest, scope, routes, k, services, pods)),
    decreases k,
{
    if k > 0 {
        lemma_apply_routes_same_tops(forest, scope, routes, (k - 1) as nat, services, pods);
        let rest = apply_routes(forest, scope, routes, (k - 1) as nat, services, pods);
        lemma_apply_route_same_tops(rest, routes[k - 1], services, pods);
        lemma_same_tops_chain(forest, rest, apply_route(rest, routes[k - 1], services, pods));
    }
}

proof fn lemma_apply_services_same_tops(
    forest: Seq<NodeView>,
    scope: Option<Seq<char>>,
    services: Seq<ServiceView>,
    k: nat,
    pods: Seq<PodView>,
)
    requires
        k <= services.len(),
    ensures
        same_tops(forest, apply_services(forest, scope, services, k, pods)),
    decreases k,
{
    if k > 0 {
        lemma_apply_services_same_tops(forest, scope, services, (k - 1) as nat, pods);
        let rest = apply_services(forest, scope, services, (k - 1) as nat, pods);
        if root_index(rest, services[k - 1].metadata.namespace, 0) < rest.len() {
            lemma_apply_service_same_tops(rest, services[k - 1], pods);
            lemma_same_tops_chain(forest, rest, apply_service(rest, services[k - 1], pods));
        }
    }
}

proof fn lemma_apply_missing_pods_same_tops(
    forest: Seq<NodeView>,
    scope: Option<Seq<char>>,
    pods: Seq<PodView>,
    k: nat,
)
    requires
        k <= pods.len(),
    ensures
        same_tops(forest, apply_missing_pods(forest, scope, pods, k)),
    decreases k,
{
    if k > 0 {
        lemma_apply_missing_pods_same_tops(forest, scope, pods, (k - 1) as nat);
        let rest = apply_missing_pods(forest, scope, pods, (k - 1) as nat);
        lemma_apply_pod_same_tops(rest, pods[k - 1]);
        lemma_same_tops_chain(forest, rest, apply_pod(rest, pods[k - 1]));
    }
}

/// The first forest has a root for each known namespace and no other: its
/// roots are those made for the namespaces, with what is known put under
/// them.
pub proof fn law_initial_forest_roots(
    namespaces: Seq<NamespaceView>,
    routes: Seq<HTTPRouteView>,
    services: Seq<ServiceView>,
    pods: Seq<PodView>,
)
    ensures
        same_tops(
            roots_for(namespaces, namespaces.len()),
            initial_forest(namespaces, routes, services, pods),
        ),
{
    law_fill_keeps_roots(roots_for(namespaces, namespaces.len()), None, routes, services, pods);
}

/// Where no node of a forest is a root of the namespace, a search for its
/// root finds none.
pub proof fn lemma_root_index_absent(forest: Seq<NodeView>, namespace: Option<Seq<char>>, start: int)
    requires
        0 <= start <= forest.len(),
        forall|j: int| start <= j < forest.len() ==> !is_root_for(#[trigger] forest[j], namespace),
    ensures
        root_index(forest, namespace, start) == forest.len(),
    decreases forest.len() - start,
{
    if start < forest.len() {
        lemma_root_index_absent(forest, namespace, start + 1);
    }
}

/// Whether each of the namespaces has a name, and no two have the same.
pub open spec fn distinct_namespaces(namespaces: Seq<NamespaceView>) -> bool {
    &&& forall|i: int| 0 <= i < namespaces.len() ==> (#[trigger] namespaces[i]).metadata.name is Some
    &&& forall|i: int, j: int|
        0 <= i < j < namespaces.len() ==> (#[trigger] namespaces[i]).metadata.name != (
        #[trigger] namespaces[j]).metadata.name
}

/// For namespaces that each have a name of their own, the roots made are
/// one for each, in their order.
pub proof fn law_roots_for_distinct(namespaces: Seq<NamespaceView>, k: nat)
    requires
        k <= namespaces.len(),
        distinct_namespaces(namespaces),
    ensures
        roots_for(namespaces, k) == Seq::new(k, |i: int| namespace_node(namespaces[i])),
    decreases k,
{
    if k > 0 {
        law_roots_for_distinct(namespaces, (k - 1) as nat);
        let rest = roots_for(namespaces, (k - 1) as nat);
        let last = namespaces[k - 1];
        assert forall|j: int| 0 <= j < rest.len() implies !is_root_for(
            #[trigger] rest[j],
            last.metadata.name,
        ) by {}
        lemma_root_index_absent(rest, last.metadata.name, 0);
    }
}

} // verus!
