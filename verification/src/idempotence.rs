//! Applying an object a second time, with nothing changed in between, leaves
//! the forest as the first time left it.

use crate::counting::{
    count, count_list, lemma_forest_count_parts, lemma_forest_without_absent,
    lemma_forest_without_clears, lemma_push_count, lemma_without_absent, lemma_without_adopt,
    lemma_without_twice, lemma_without_with_child, total,
};
use crate::events::WatchEvent;
use crate::node::{
    NodeView, ResourceKind, namespace_node, placeholder_namespace, pod_node, route_node,
    text_or_empty,
};
use crate::objects::{HTTPRouteView, NamespaceView, PodView, ServiceView};
use crate::reconcile::{
    apply_missing_pods, apply_namespace, apply_pod, apply_referenced, apply_route, apply_routes,
    apply_service, apply_services, chosen, fan_out, place_service, populate, referenced_among,
    service_subtree, with_child, without_selected,
};
use crate::rules::{labels_of, node_references, route_references_service, service_selects_pod};
use crate::tree::{
    ObjectRef, forest_without, identified, is_root_for, node_is, ref_of, root_index, without,
    without_list,
};
use crate::uniqueness::{
    Notification, after, lemma_forest_without_le_total, lemma_root_index_bounds,
    lemma_same_tops_index, lemma_without_selected_clears, lemma_without_selected_le,
    lemma_without_selected_tops, lemma_without_tops, picks, same_tops,
};
use crate::wiping::{
    lemma_wipe_append, lemma_wipe_commute, lemma_wipe_placed, lemma_wipe_prefix, lemma_wipe_without,
    lemma_without_with_child_other, no_routes, placed, washed, wipe,
};
use vstd::prelude::*;

verus! {

/// Taking a pod out of the forest that applying it left gives the forest
/// with the pod taken out.
pub proof fn lemma_apply_pod_undone(forest: Seq<NodeView>, pod: PodView)
    requires
        identified(pod.metadata),
    ensures
        forest_without(apply_pod(forest, pod), ref_of(ResourceKind::Pod, pod.metadata))
            == forest_without(forest, ref_of(ResourceKind::Pod, pod.metadata)),
{
    let r = ref_of(ResourceKind::Pod, pod.metadata);
    let cleared = forest_without(forest, r);
    let after = apply_pod(forest, pod);
    let i = root_index(cleared, pod.metadata.namespace, 0);
    lemma_root_index_bounds(cleared, pod.metadata.namespace, 0);
    assert forall|j: int| 0 <= j < cleared.len() implies without(after[j], r) == cleared[j] by {
        lemma_without_twice(forest[j], r);
        if j == i {
            match chosen(cleared[i], pod.metadata.namespace, labels_of(pod.metadata)) {
                Some(name) => {
                    lemma_without_adopt(cleared[i], pod, labels_of(pod.metadata), name);
                },
                None => {
                    lemma_without_with_child(cleared[i], pod_node(pod), r);
                },
            }
        }
    }
}

/// Idempotence for pods: applying a pod twice in a row leaves the forest as
/// applying it once does.
pub proof fn law_apply_pod_idempotent(forest: Seq<NodeView>, pod: PodView)
    ensures
        apply_pod(apply_pod(forest, pod), pod) == apply_pod(forest, pod),
{
    if identified(pod.metadata) {
        lemma_apply_pod_undone(forest, pod);
    }
}

// ---------------------------------------------------------------------------
// Services

/// Taking a service out of the routes it was just copied under leaves the
/// nodes as they were.
pub proof fn lemma_without_fan_out(
    nodes: Seq<NodeView>,
    k: nat,
    name: Seq<char>,
    node: NodeView,
    r: ObjectRef,
)
    requires
        k <= nodes.len(),
        node_is(node, r),
        count_list(nodes, k, r, false) == 0,
    ensures
        without_list(fan_out(nodes, name, node), k, r) == nodes.subrange(0, k as int),
    decreases k,
{
    if k > 0 {
        lemma_without_fan_out(nodes, (k - 1) as nat, name, node, r);
        lemma_without_absent(nodes[k - 1], r);
        if node_references(nodes[k - 1], name) {
            lemma_without_with_child(nodes[k - 1], node, r);
        }
    }
}

/// Taking a service out of the root it was just put under leaves the root
/// as it was.
pub proof fn lemma_without_place_service(root: NodeView, node: NodeView, name: Seq<char>, r: ObjectRef)
    requires
        node_is(node, r),
        count(root, r, false) == 0,
    ensures
        without(place_service(root, node, name), r) == root,
{
    if referenced_among(root.relatives, root.relatives.len(), name) {
        lemma_without_fan_out(root.relatives, root.relatives.len(), name, node, r);
        assert(root.relatives.subrange(0, root.relatives.len() as int) =~= root.relatives);
    } else {
        lemma_without_with_child(root, node, r);
        lemma_without_absent(root, r);
    }
}

/// A pod that the service selects is picked.
pub proof fn lemma_picks_present(service: ServiceView, pods: Seq<PodView>, k: nat, j: int)
    requires
        0 <= j < k <= pods.len(),
        service_selects_pod(service, pods[j]),
    ensures
        picks(service, pods, k, ref_of(ResourceKind::Pod, pods[j].metadata)) > 0,
    decreases k,
{
    if j < k - 1 {
        lemma_picks_present(service, pods, (k - 1) as nat, j);
    }
}

/// Taking the selected pods out of a forest that holds none of them changes
/// nothing.
pub proof fn lemma_without_selected_absent(
    forest: Seq<NodeView>,
    service: ServiceView,
    pods: Seq<PodView>,
    k: nat,
)
    requires
        k <= pods.len(),
        forall|j: int|
            0 <= j < k && service_selects_pod(service, pods[j]) ==> total(
                forest,
                ref_of(ResourceKind::Pod, #[trigger] pods[j].metadata),
                false,
            ) == 0,
    ensures
        without_selected(forest, service, pods, k) == forest,
    decreases k,
{
    if k > 0 {
        lemma_without_selected_absent(forest, service, pods, (k - 1) as nat);
        if service_selects_pod(service, pods[k - 1]) {
            lemma_forest_without_absent(forest, ref_of(ResourceKind::Pod, pods[k - 1].metadata));
        }
    }
}

/// A root added behind a forest that has none for the namespace is the one
/// that a search for the namespace finds.
pub proof fn lemma_root_index_push(
    forest: Seq<NodeView>,
    root: NodeView,
    namespace: Option<Seq<char>>,
    start: int,
)
    requires
        0 <= start <= forest.len(),
        root_index(forest, namespace, start) >= forest.len(),
        is_root_for(root, namespace),
    ensures
        root_index(forest.push(root), namespace, start) == forest.len(),
    decreases forest.len() - start,
{
    if start < forest.len() {
        lemma_root_index_bounds(forest, namespace, start);
        if is_root_for(forest[start], namespace) {
        } else {
            lemma_root_index_push(forest, root, namespace, start + 1);
        }
    }
}

/// Idempotence for services: applying a service twice in a row, with the
/// same pods known, leaves the forest as applying it once does.
pub proof fn law_apply_service_idempotent(
    forest: Seq<NodeView>,
    service: ServiceView,
    pods: Seq<PodView>,
)
    ensures
        apply_service(apply_service(forest, service, pods), service, pods) == apply_service(
            forest,
            service,
            pods,
        ),
{
    if identified(service.metadata) {
        let r = ref_of(ResourceKind::Service, service.metadata);
        let namespace = service.metadata.namespace;
        let name = text_or_empty(service.metadata.name);
        let removed = forest_without(forest, r);
        let cleared = without_selected(removed, service, pods, pods.len());
        let i = root_index(cleared, namespace, 0);
        lemma_root_index_bounds(cleared, namespace, 0);
        let placeholder = placeholder_namespace(text_or_empty(namespace));
        let rooted = if i >= cleared.len() {
            cleared.push(placeholder)
        } else {
            cleared
        };
        let node = service_subtree(service, pods);
        let after = apply_service(forest, service, pods);
        // The forest that the service was put into holds neither the service
        // nor any of the pods it selects.
        lemma_forest_without_clears(forest, forest.len(), r, false);
        lemma_without_selected_le(removed, service, pods, pods.len(), r, false);
        if i >= cleared.len() {
            lemma_push_count(cleared, placeholder, r, false);
            lemma_root_index_push(cleared, placeholder, namespace, 0);
        }
        assert forall|j: int|
            0 <= j < pods.len() && service_selects_pod(service, pods[j]) implies total(
            rooted,
            ref_of(ResourceKind::Pod, #[trigger] pods[j].metadata),
            false,
        ) == 0 by {
            let q = ref_of(ResourceKind::Pod, pods[j].metadata);
            lemma_picks_present(service, pods, pods.len(), j);
            lemma_without_selected_clears(removed, service, pods, pods.len(), q, false);
            if i >= cleared.len() {
                lemma_push_count(cleared, placeholder, q, false);
            }
        }
        // Taking the service out again gives that forest back.
        assert forall|j: int| 0 <= j < rooted.len() implies without(after[j], r) == rooted[j] by {
            lemma_forest_count_parts(rooted, rooted.len(), r, false, j);
            if j == i {
                lemma_without_place_service(rooted[i], node, name, r);
            } else {
                lemma_without_absent(rooted[j], r);
            }
        }
        assert(forest_without(after, r) =~= rooted);
        lemma_without_selected_absent(rooted, service, pods, pods.len());
    }
}

// ---------------------------------------------------------------------------
// Namespaces

/// Whether two nodes are the same but for what stands under them.
pub open spec fn same_top(a: NodeView, b: NodeView) -> bool {
    a.kind == b.kind && a.name == b.name && a.metadata == b.metadata && a.spec == b.spec
        && a.resource_metadata == b.resource_metadata
}

/// Whether the second forest starts with the roots of the first, whatever
/// stands under them.
pub open spec fn tops_kept(a: Seq<NodeView>, b: Seq<NodeView>) -> bool {
    &&& a.len() <= b.len()
    &&& forall|i: int| 0 <= i < a.len() ==> same_top(#[trigger] a[i], b[i])
}

/// Keeping the roots goes on from step to step.
pub proof fn lemma_tops_kept_chain(a: Seq<NodeView>, b: Seq<NodeView>, c: Seq<NodeView>)
    requires
        tops_kept(a, b),
        tops_kept(b, c),
    ensures
        tops_kept(a, c),
{
    assert forall|i: int| 0 <= i < a.len() implies same_top(#[trigger] a[i], c[i]) by {}
}

/// A root that a search finds is found again once roots were added behind.
pub proof fn lemma_tops_kept_index(
    a: Seq<NodeView>,
    b: Seq<NodeView>,
    namespace: Option<Seq<char>>,
    start: int,
)
    requires
        tops_kept(a, b),
        0 <= start,
        root_index(a, namespace, start) < a.len(),
    ensures
        root_index(b, namespace, start) == root_index(a, namespace, start),
    decreases a.len() - start,
{
    if start < a.len() {
        lemma_root_index_bounds(a, namespace, start);
        if !is_root_for(a[start], namespace) {
            lemma_tops_kept_index(a, b, namespace, start + 1);
        }
    }
}

/// Applying a pod keeps the roots.
pub proof fn lemma_apply_pod_tops(forest: Seq<NodeView>, pod: PodView)
    ensures
        tops_kept(forest, apply_pod(forest, pod)),
{
    if identified(pod.metadata) {
        let cleared = forest_without(forest, ref_of(ResourceKind::Pod, pod.metadata));
        lemma_root_index_bounds(cleared, pod.metadata.namespace, 0);
        let after = apply_pod(forest, pod);
        assert forall|i: int| 0 <= i < forest.len() implies same_top(
            #[trigger] forest[i],
            after[i],
        ) by {}
    } else {
        assert forall|i: int| 0 <= i < forest.len() implies same_top(
            #[trigger] forest[i],
            forest[i],
        ) by {}
    }
}

/// Applying a service keeps the roots, and may add one behind them.
pub proof fn lemma_apply_service_tops(forest: Seq<NodeView>, service: ServiceView, pods: Seq<PodView>)
    ensures
        tops_kept(forest, apply_service(forest, service, pods)),
{
    if identified(service.metadata) {
        let removed = forest_without(forest, ref_of(ResourceKind::Service, service.metadata));
        let cleared = without_selected(removed, service, pods, pods.len());
        lemma_without_selected_tops(removed, service, pods, pods.len());
        lemma_root_index_bounds(cleared, service.metadata.namespace, 0);
        let after = apply_service(forest, service, pods);
        assert forall|i: int| 0 <= i < forest.len() implies same_top(
            #[trigger] forest[i],
            after[i],
        ) by {
            assert(same_top(forest[i], removed[i]));
        }
    } else {
        assert forall|i: int| 0 <= i < forest.len() implies same_top(
            #[trigger] forest[i],
            forest[i],
        ) by {}
    }
}

proof fn lemma_apply_referenced_tops(
    forest: Seq<NodeView>,
    route: HTTPRouteView,
    services: Seq<ServiceView>,
    k: nat,
    pods: Seq<PodView>,
)
    requires
        k <= services.len(),
    ensures
        tops_kept(forest, apply_referenced(forest, route, services, k, pods)),
    decreases k,
{
    if k > 0 {
        lemma_apply_referenced_tops(forest, route, services, (k - 1) as nat, pods);
        let rest = apply_referenced(forest, route, services, (k - 1) as nat, pods);
        lemma_apply_service_tops(rest, services[k - 1], pods);
        lemma_tops_kept_chain(forest, rest, apply_service(rest, services[k - 1], pods));
    } else {
        assert forall|i: int| 0 <= i < forest.len() implies same_top(
            #[trigger] forest[i],
            forest[i],
        ) by {}
    }
}

/// Applying a route keeps the roots, and may add some behind them.
pub proof fn lemma_apply_route_tops(
    forest: Seq<NodeView>,
    route: HTTPRouteView,
    services: Seq<ServiceView>,
    pods: Seq<PodView>,
)
    ensures
        tops_kept(forest, apply_route(forest, route, services, pods)),
{
    if identified(route.metadata) {
        let cleared = forest_without(forest, ref_of(ResourceKind::HTTPRoute, route.metadata));
        let i = root_index(cleared, route.metadata.namespace, 0);
        lemma_root_index_bounds(cleared, route.metadata.namespace, 0);
        assert forall|j: int| 0 <= j < forest.len() implies same_top(
            #[trigger] forest[j],
            cleared[j],
        ) by {}
        if i < cleared.len() {
            let attached = cleared.update(i, with_child(cleared[i], route_node(route)));
            assert forall|j: int| 0 <= j < forest.len() implies same_top(
                #[trigger] forest[j],
                attached[j],
            ) by {}
            lemma_apply_referenced_tops(attached, route, services, services.len(), pods);
            lemma_tops_kept_chain(
                forest,
                attached,
                apply_referenced(attached, route, services, services.len(), pods),
            );
        }
    } else {
        assert forall|i: int| 0 <= i < forest.len() implies same_top(
            #[trigger] forest[i],
            forest[i],
        ) by {}
    }
}

/// Putting in all that is known keeps the roots, and may add some behind
/// them.
pub proof fn lemma_populate_tops(
    forest: Seq<NodeView>,
    scope: Option<Seq<char>>,
    routes: Seq<HTTPRouteView>,
    services: Seq<ServiceView>,
    pods: Seq<PodView>,
)
    ensures
        tops_kept(forest, populate(forest, scope, routes, services, pods)),
{
    lemma_apply_routes_tops(forest, scope, routes, routes.len(), services, pods);
    let routed = apply_routes(forest, scope, routes, routes.len(), services, pods);
    lemma_apply_services_tops(routed, scope, services, services.len(), pods);
    let served = apply_services(routed, scope, services, services.len(), pods);
    lemma_apply_missing_pods_tops(served, scope, pods, pods.len());
    lemma_tops_kept_chain(forest, routed, served);
    lemma_tops_kept_chain(forest, served, apply_missing_pods(served, scope, pods, pods.len()));
}

proof fn lemma_apply_routes_tops(
    forest: Seq<NodeView>,
    scope: Option<Seq<char>>,
    routes: Seq<HTTPRouteView>,
    k: nat,
    services: Seq<ServiceView>,
    pods: Seq<PodView>,
)
    requires
        k <= routes.len(),
    ensures
        tops_kept(forest, apply_routes(forest, scope, routes, k, services, pods)),
    decreases k,
{
    if k > 0 {
        lemma_apply_routes_tops(forest, scope, routes, (k - 1) as nat, services, pods);
        let rest = apply_routes(forest, scope, routes, (k - 1) as nat, services, pods);
        lemma_apply_route_tops(rest, routes[k - 1], services, pods);
        lemma_tops_kept_chain(forest, rest, apply_route(rest, routes[k - 1], services, pods));
    } else {
        assert forall|i: int| 0 <= i < forest.len() implies same_top(
            #[trigger] forest[i],
            forest[i],
        ) by {}
    }
}

proof fn lemma_apply_services_tops(
    forest: Seq<NodeView>,
    scope: Option<Seq<char>>,
    services: Seq<ServiceView>,
    k: nat,
    pods: Seq<PodView>,
)
    requires
        k <= services.len(),
    ensures
        tops_kept(forest, apply_services(forest, scope, services, k, pods)),
    decreases k,
{
    if k > 0 {
        lemma_apply_services_tops(forest, scope, services, (k - 1) as nat, pods);
        let rest = apply_services(forest, scope, services, (k - 1) as nat, pods);
        lemma_apply_service_tops(rest, services[k - 1], pods);
        lemma_tops_kept_chain(forest, rest, apply_service(rest, services[k - 1], pods));
    } else {
        assert forall|i: int| 0 <= i < forest.len() implies same_top(
            #[trigger] forest[i],
            forest[i],
        ) by {}
    }
}

proof fn lemma_apply_missing_pods_tops(
    forest: Seq<NodeView>,
    scope: Option<Seq<char>>,
    pods: Seq<PodView>,
    k: nat,
)
    requires
        k <= pods.len(),
    ensures
        tops_kept(forest, apply_missing_pods(forest, scope, pods, k)),
    decreases k,
{
    if k > 0 {
        lemma_apply_missing_pods_tops(forest, scope, pods, (k - 1) as nat);
        let rest = apply_missing_pods(forest, scope, pods, (k - 1) as nat);
        lemma_apply_pod_tops(rest, pods[k - 1]);
        lemma_tops_kept_chain(forest, rest, apply_pod(rest, pods[k - 1]));
    } else {
        assert forall|i: int| 0 <= i < forest.len() implies same_top(
            #[trigger] forest[i],
            forest[i],
        ) by {}
    }
}

/// Idempotence for namespaces: applying a namespace twice in a row leaves
/// the forest as applying it once does.
pub proof fn law_apply_namespace_idempotent(
    forest: Seq<NodeView>,
    namespace: NamespaceView,
    routes: Seq<HTTPRouteView>,
    services: Seq<ServiceView>,
    pods: Seq<PodView>,
)
    ensures
        apply_namespace(
            apply_namespace(forest, namespace, routes, services, pods),
            namespace,
            routes,
            services,
            pods,
        ) == apply_namespace(forest, namespace, routes, services, pods),
{
    if namespace.metadata.name is Some {
        let name = namespace.metadata.name;
        let i = root_index(forest, name, 0);
        lemma_root_index_bounds(forest, name, 0);
        let after = apply_namespace(forest, namespace, routes, services, pods);
        let fresh = namespace_node(namespace);
        if i < forest.len() {
            let root = NodeView { relatives: forest[i].relatives, ..fresh };
            crate::uniqueness::lemma_root_replaced(forest, i, root, name, 0);
        } else {
            let grown = forest.push(fresh);
            lemma_root_index_push(forest, fresh, name, 0);
            lemma_populate_tops(grown, name, routes, services, pods);
            lemma_tops_kept_index(grown, after, name, 0);
            assert(same_top(grown[i], after[i]));
        }
    }
}

// ---------------------------------------------------------------------------
// Routes

/// What applying a service takes out of the forest before it puts the
/// service in: the service itself, and those of the first `k` pods that it
/// selects.
pub open spec fn taken_out(service: ServiceView, pods: Seq<PodView>, k: nat) -> Seq<ObjectRef>
    decreases k,
{
    if k == 0 || k > pods.len() {
        seq![ref_of(ResourceKind::Service, service.metadata)]
    } else {
        let rest = taken_out(service, pods, (k - 1) as nat);
        if service_selects_pod(service, pods[k - 1]) {
            rest.push(ref_of(ResourceKind::Pod, pods[k - 1].metadata))
        } else {
            rest
        }
    }
}

/// What applying a service takes out is the service and pods, taken out one
/// after the other.
pub proof fn lemma_taken_out(forest: Seq<NodeView>, service: ServiceView, pods: Seq<PodView>, k: nat)
    requires
        k <= pods.len(),
    ensures
        taken_out(service, pods, k).len() >= 1,
        taken_out(service, pods, k)[0] == ref_of(ResourceKind::Service, service.metadata),
        no_routes(taken_out(service, pods, k)),
        without_selected(
            forest_without(forest, ref_of(ResourceKind::Service, service.metadata)),
            service,
            pods,
            k,
        ) == wipe(forest, taken_out(service, pods, k), taken_out(service, pods, k).len()),
    decreases k,
{
    let r = ref_of(ResourceKind::Service, service.metadata);
    if k > 0 {
        lemma_taken_out(forest, service, pods, (k - 1) as nat);
        let rest = taken_out(service, pods, (k - 1) as nat);
        if service_selects_pod(service, pods[k - 1]) {
            let q = ref_of(ResourceKind::Pod, pods[k - 1].metadata);
            lemma_wipe_prefix(forest, rest.push(q), rest, rest.len());
        }
    } else {
        assert(wipe(forest, seq![r], 1) == forest_without(wipe(forest, seq![r], 0), r));
    }
}

/// Taking out a list of objects keeps the roots.
pub proof fn lemma_wipe_tops(forest: Seq<NodeView>, gone: Seq<ObjectRef>, k: nat)
    requires
        k <= gone.len(),
    ensures
        same_tops(forest, wipe(forest, gone, k)),
    decreases k,
{
    if k > 0 {
        lemma_wipe_tops(forest, gone, (k - 1) as nat);
        assert forall|i: int| 0 <= i < forest.len() implies same_top(
            #[trigger] forest[i],
            wipe(forest, gone, k)[i],
        ) by {}
    }
}

/// Once a list of objects was taken out, none of them has a node.
pub proof fn lemma_wipe_clears(forest: Seq<NodeView>, gone: Seq<ObjectRef>, k: nat, j: int)
    requires
        0 <= j < k <= gone.len(),
    ensures
        total(wipe(forest, gone, k), gone[j], false) == 0,
    decreases k,
{
    let before = wipe(forest, gone, (k - 1) as nat);
    lemma_wipe_without(forest, gone, (k - 1) as nat, gone[k - 1]);
    if j == k - 1 {
        lemma_forest_without_clears(before, before.len(), gone[k - 1], false);
    } else {
        lemma_wipe_clears(forest, gone, (k - 1) as nat, j);
        lemma_forest_without_le_total(before, gone[k - 1], gone[j], false);
    }
}

/// Taking out objects that have no node changes nothing.
pub proof fn lemma_wipe_absent(forest: Seq<NodeView>, gone: Seq<ObjectRef>, k: nat)
    requires
        k <= gone.len(),
        forall|j: int| 0 <= j < k ==> total(forest, #[trigger] gone[j], false) == 0,
    ensures
        wipe(forest, gone, k) == forest,
    decreases k,
{
    if k > 0 {
        lemma_wipe_absent(forest, gone, (k - 1) as nat);
        lemma_forest_without_absent(forest, gone[k - 1]);
    }
}

/// Taking a list of objects out a second time changes nothing.
pub proof fn lemma_wipe_twice(forest: Seq<NodeView>, gone: Seq<ObjectRef>)
    ensures
        wipe(wipe(forest, gone, gone.len()), gone, gone.len()) == wipe(forest, gone, gone.len()),
{
    let once = wipe(forest, gone, gone.len());
    assert forall|j: int| 0 <= j < gone.len() implies total(once, #[trigger] gone[j], false)
        == 0 by {
        lemma_wipe_clears(forest, gone, gone.len(), j);
    }
    lemma_wipe_absent(once, gone, gone.len());
}

/// Once the first of a list of objects is a node, nothing is left of the
/// node when the list was taken out.
pub proof fn lemma_washed_away(node: NodeView, gone: Seq<ObjectRef>, k: nat)
    requires
        1 <= k <= gone.len(),
        node_is(node, gone[0]),
    ensures
        washed(node, gone, k) is None,
    decreases k,
{
    if k > 1 {
        lemma_washed_away(node, gone, (k - 1) as nat);
    } else {
        assert(washed(node, gone, 0) == Some(node));
    }
}

/// Applying a service whose namespace has a root is taking out what it
/// takes out and putting the service, with its pods, under that root.
pub proof fn lemma_apply_service_placed(forest: Seq<NodeView>, service: ServiceView, pods: Seq<PodView>)
    requires
        identified(service.metadata),
        root_index(forest, service.metadata.namespace, 0) < forest.len(),
    ensures
        ({
            let gone = taken_out(service, pods, pods.len());
            let cleared = wipe(forest, gone, gone.len());
            let i = root_index(forest, service.metadata.namespace, 0);
            &&& 0 <= i < forest.len()
            &&& cleared.len() == forest.len()
            &&& apply_service(forest, service, pods) == placed(
                cleared,
                i,
                Some(service_subtree(service, pods)),
                text_or_empty(service.metadata.name),
            )
            &&& wipe(apply_service(forest, service, pods), gone, gone.len()) == cleared
        }),
{
    let gone = taken_out(service, pods, pods.len());
    let cleared = wipe(forest, gone, gone.len());
    let namespace = service.metadata.namespace;
    let name = text_or_empty(service.metadata.name);
    let node = service_subtree(service, pods);
    lemma_taken_out(forest, service, pods, pods.len());
    lemma_wipe_tops(forest, gone, gone.len());
    lemma_same_tops_index(forest, cleared, namespace, 0);
    lemma_root_index_bounds(forest, namespace, 0);
    let i = root_index(forest, namespace, 0);
    lemma_wipe_placed(cleared, i, node, name, gone, gone.len());
    lemma_washed_away(node, gone, gone.len());
    lemma_wipe_twice(forest, gone);
}

/// Whether the service at position `j` is applied when the route is: the
/// route refers to it, and it has a name and a namespace.
pub open spec fn applies(route: HTTPRouteView, services: Seq<ServiceView>, j: int) -> bool {
    route_references_service(route, services[j]) && identified(services[j].metadata)
}

/// All that applying the first `k` services that a route refers to takes
/// out of the forest.
pub open spec fn all_taken_out(
    route: HTTPRouteView,
    services: Seq<ServiceView>,
    k: nat,
    pods: Seq<PodView>,
) -> Seq<ObjectRef>
    decreases k,
{
    if k == 0 || k > services.len() {
        Seq::empty()
    } else {
        let rest = all_taken_out(route, services, (k - 1) as nat, pods);
        if applies(route, services, k - 1) {
            rest + taken_out(services[k - 1], pods, pods.len())
        } else {
            rest
        }
    }
}

/// The forest with a list of objects taken out in full.
pub open spec fn wiped(forest: Seq<NodeView>, gone: Seq<ObjectRef>) -> Seq<NodeView> {
    wipe(forest, gone, gone.len())
}

/// None of what applying services takes out is a route.
pub proof fn lemma_all_taken_out_kinds(
    route: HTTPRouteView,
    services: Seq<ServiceView>,
    k: nat,
    pods: Seq<PodView>,
)
    requires
        k <= services.len(),
    ensures
        no_routes(all_taken_out(route, services, k, pods)),
    decreases k,
{
    if k > 0 {
        lemma_all_taken_out_kinds(route, services, (k - 1) as nat, pods);
        if applies(route, services, k - 1) {
            lemma_taken_out(Seq::empty(), services[k - 1], pods, pods.len());
        }
    }
}

/// The forest that applying the services a route refers to leaves, with
/// objects taken out afterwards, goes by the forest it started from with
/// those objects and all that the services take out taken out.
pub proof fn lemma_fold_goes_by_wiped(
    x: Seq<NodeView>,
    y: Seq<NodeView>,
    route: HTTPRouteView,
    services: Seq<ServiceView>,
    k: nat,
    pods: Seq<PodView>,
    extra: Seq<ObjectRef>,
)
    requires
        k <= services.len(),
        identified(route.metadata),
        root_index(x, route.metadata.namespace, 0) < x.len(),
        root_index(y, route.metadata.namespace, 0) < y.len(),
        no_routes(extra),
        wiped(wiped(x, all_taken_out(route, services, k, pods)), extra) == wiped(
            wiped(y, all_taken_out(route, services, k, pods)),
            extra,
        ),
    ensures
        wiped(apply_referenced(x, route, services, k, pods), extra) == wiped(
            apply_referenced(y, route, services, k, pods),
            extra,
        ),
    decreases k,
{
    if k > 0 {
        let before = all_taken_out(route, services, (k - 1) as nat, pods);
        let x1 = apply_referenced(x, route, services, (k - 1) as nat, pods);
        let y1 = apply_referenced(y, route, services, (k - 1) as nat, pods);
        if applies(route, services, k - 1) {
            let service = services[k - 1];
            let namespace = route.metadata.namespace;
            let name = text_or_empty(service.metadata.name);
            let node = service_subtree(service, pods);
            let gone = taken_out(service, pods, pods.len());
            let more = gone + extra;
            lemma_taken_out(x, service, pods, pods.len());
            // The hypothesis, with what this service takes out counted as extra.
            lemma_wipe_append(x, before, gone, gone.len());
            lemma_wipe_append(y, before, gone, gone.len());
            lemma_wipe_append(wiped(x, before), gone, extra, extra.len());
            lemma_wipe_append(wiped(y, before), gone, extra, extra.len());
            lemma_fold_goes_by_wiped(x, y, route, services, (k - 1) as nat, pods, more);
            // The roots are where they were.
            lemma_apply_referenced_tops(x, route, services, (k - 1) as nat, pods);
            lemma_apply_referenced_tops(y, route, services, (k - 1) as nat, pods);
            lemma_tops_kept_index(x, x1, namespace, 0);
            lemma_tops_kept_index(y, y1, namespace, 0);
            lemma_apply_service_placed(x1, service, pods);
            lemma_apply_service_placed(y1, service, pods);
            let ix = root_index(x1, namespace, 0);
            let iy = root_index(y1, namespace, 0);
            lemma_wipe_tops(x1, more, more.len());
            lemma_wipe_tops(y1, more, more.len());
            lemma_same_tops_index(x1, wiped(x1, more), namespace, 0);
            lemma_same_tops_index(y1, wiped(y1, more), namespace, 0);
            // Taking the extra out after the service was put in.
            lemma_wipe_placed(wiped(x1, gone), ix, node, name, extra, extra.len());
            lemma_wipe_placed(wiped(y1, gone), iy, node, name, extra, extra.len());
            lemma_wipe_append(x1, gone, extra, extra.len());
            lemma_wipe_append(y1, gone, extra, extra.len());
        } else {
            lemma_fold_goes_by_wiped(x, y, route, services, (k - 1) as nat, pods, extra);
        }
    }
}

/// Taking out all that the services take out, after they were applied, is
/// taking it out of the forest they were applied to.
pub proof fn lemma_fold_wiped(
    x: Seq<NodeView>,
    route: HTTPRouteView,
    services: Seq<ServiceView>,
    k: nat,
    pods: Seq<PodView>,
    extra: Seq<ObjectRef>,
)
    requires
        k <= services.len(),
        identified(route.metadata),
        root_index(x, route.metadata.namespace, 0) < x.len(),
    ensures
        wiped(
            wiped(apply_referenced(x, route, services, k, pods), all_taken_out(route, services, k, pods)),
            extra,
        ) == wiped(wiped(x, all_taken_out(route, services, k, pods)), extra),
    decreases k,
{
    if k > 0 {
        let before = all_taken_out(route, services, (k - 1) as nat, pods);
        let x1 = apply_referenced(x, route, services, (k - 1) as nat, pods);
        if applies(route, services, k - 1) {
            let service = services[k - 1];
            let namespace = route.metadata.namespace;
            let gone = taken_out(service, pods, pods.len());
            let more = gone + extra;
            let after = apply_service(x1, service, pods);
            lemma_apply_referenced_tops(x, route, services, (k - 1) as nat, pods);
            lemma_tops_kept_index(x, x1, namespace, 0);
            lemma_apply_service_placed(x1, service, pods);
            // after, less before, less gone, less extra
            lemma_wipe_append(after, before, gone, gone.len());
            lemma_wipe_commute(after, before, before.len(), gone, gone.len());
            // = after, less gone, less before = x1, less gone, less before
            lemma_wipe_commute(x1, before, before.len(), gone, gone.len());
            // = x1, less before, less gone, less extra = x1, less before, less more
            lemma_wipe_append(wiped(x1, before), gone, extra, extra.len());
            lemma_fold_wiped(x, route, services, (k - 1) as nat, pods, more);
            lemma_wipe_append(wiped(x, before), gone, extra, extra.len());
            lemma_wipe_append(x, before, gone, gone.len());
        } else {
            lemma_fold_wiped(x, route, services, (k - 1) as nat, pods, extra);
        }
    }
}

/// Taking an object out of a forest a second time changes nothing.
pub proof fn lemma_forest_without_twice(forest: Seq<NodeView>, r: ObjectRef)
    ensures
        forest_without(forest_without(forest, r), r) == forest_without(forest, r),
{
    assert forall|j: int| 0 <= j < forest.len() implies without(without(forest[j], r), r)
        == without(forest[j], r) by {
        lemma_without_twice(forest[j], r);
    }
}

/// The forest with a node attached under the root at `i`.
pub open spec fn attached(forest: Seq<NodeView>, i: int, node: NodeView) -> Seq<NodeView> {
    forest.update(i, with_child(forest[i], node))
}

/// Taking objects that are no routes out after a bare route was attached
/// under a root is taking them out first and attaching the route after.
pub proof fn lemma_wipe_attached(
    forest: Seq<NodeView>,
    i: int,
    node: NodeView,
    gone: Seq<ObjectRef>,
    k: nat,
)
    requires
        0 <= i < forest.len(),
        k <= gone.len(),
        no_routes(gone),
        node.kind == ResourceKind::HTTPRoute,
        node.relatives.len() == 0,
    ensures
        wipe(forest, gone, k).len() == forest.len(),
        wipe(attached(forest, i, node), gone, k) == attached(wipe(forest, gone, k), i, node),
    decreases k,
{
    if k > 0 {
        lemma_wipe_attached(forest, i, node, gone, (k - 1) as nat);
        let q = gone[k - 1];
        let before = wipe(forest, gone, (k - 1) as nat);
        lemma_without_with_child_other(before[i], node, q);
        assert(without(node, q).relatives =~= node.relatives);
    }
}

/// Idempotence for routes: applying a route twice in a row, with the same
/// services and pods known, leaves the forest as applying it once does.
pub proof fn law_apply_route_idempotent(
    forest: Seq<NodeView>,
    route: HTTPRouteView,
    services: Seq<ServiceView>,
    pods: Seq<PodView>,
)
    ensures
        apply_route(apply_route(forest, route, services, pods), route, services, pods)
            == apply_route(forest, route, services, pods),
{
    if identified(route.metadata) {
        let r = ref_of(ResourceKind::HTTPRoute, route.metadata);
        let namespace = route.metadata.namespace;
        let cleared = forest_without(forest, r);
        let i = root_index(cleared, namespace, 0);
        lemma_root_index_bounds(cleared, namespace, 0);
        lemma_forest_without_twice(forest, r);
        if i < cleared.len() {
            let fresh = route_node(route);
            let gone = all_taken_out(route, services, services.len(), pods);
            let none = Seq::<ObjectRef>::empty();
            let start = attached(cleared, i, fresh);
            let after = apply_referenced(start, route, services, services.len(), pods);
            let cleared2 = forest_without(after, r);
            let start2 = attached(cleared2, i, fresh);
            lemma_all_taken_out_kinds(route, services, services.len(), pods);
            // The root of the namespace stays where it is.
            crate::uniqueness::lemma_root_replaced(
                cleared,
                i,
                with_child(cleared[i], fresh),
                namespace,
                0,
            );
            lemma_apply_referenced_tops(start, route, services, services.len(), pods);
            lemma_tops_kept_index(start, after, namespace, 0);
            lemma_without_tops(after, r);
            lemma_same_tops_index(after, cleared2, namespace, 0);
            lemma_root_index_bounds(cleared2, namespace, 0);
            crate::uniqueness::lemma_root_replaced(
                cleared2,
                i,
                with_child(cleared2[i], fresh),
                namespace,
                0,
            );
            // With all that the services take out taken out, the second start
            // is the first.
            lemma_wipe_attached(cleared, i, fresh, gone, gone.len());
            lemma_wipe_attached(cleared2, i, fresh, gone, gone.len());
            lemma_wipe_without(after, gone, gone.len(), r);
            lemma_fold_wiped(start, route, services, services.len(), pods, none);
            let wiped_start = wiped(start, gone);
            let wiped_cleared = wiped(cleared, gone);
            lemma_without_with_child(wiped_cleared[i], fresh, r);
            assert(forest_without(wiped_start, r) =~= forest_without(wiped_cleared, r));
            lemma_wipe_without(forest, gone, gone.len(), r);
            lemma_wipe_without(cleared, gone, gone.len(), r);
            lemma_fold_goes_by_wiped(start2, start, route, services, services.len(), pods, none);
        }
    }
}

// ---------------------------------------------------------------------------
// Whatever is applied

/// Whether a notification says that an object was created or changed.
pub open spec fn is_apply(notification: Notification) -> bool {
    match notification {
        Notification::Pod(event) => event is Apply,
        Notification::Service(event, _) => event is Apply,
        Notification::Route(event, _, _) => event is Apply,
        Notification::Namespace(event, _, _, _) => event is Apply,
    }
}

/// Idempotence: a notification that applies an object, arriving a second
/// time with the same things known, leaves the forest as the first time
/// left it.
pub proof fn law_idempotence(forest: Seq<NodeView>, notification: Notification)
    requires
        is_apply(notification),
    ensures
        after(after(forest, notification), notification) == after(forest, notification),
{
    match notification {
        Notification::Pod(event) => match event {
            WatchEvent::Apply(pod) => {
                law_apply_pod_idempotent(forest, pod);
            },
            _ => {},
        },
        Notification::Service(event, pods) => match event {
            WatchEvent::Apply(service) => {
                law_apply_service_idempotent(forest, service, pods);
            },
            _ => {},
        },
        Notification::Route(event, services, pods) => match event {
            WatchEvent::Apply(route) => {
                law_apply_route_idempotent(forest, route, services, pods);
            },
            _ => {},
        },
        Notification::Namespace(event, routes, services, pods) => match event {
            WatchEvent::Apply(namespace) => {
                law_apply_namespace_idempotent(forest, namespace, routes, services, pods);
            },
            _ => {},
        },
    }
}

} // verus!
