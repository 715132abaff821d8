//! Every node stands under the root of the namespace it lives in.

use crate::node::{
    NodeView, ResourceKind, namespace_node, placeholder_namespace, pod_node, route_node,
    text_or_empty,
};
use crate::objects::{HTTPRouteView, NamespaceView, ObjectMetaView, PodView, ServiceView};
use crate::reconcile::{
    adopt, adopt_list, apply_missing_pods, apply_namespace, apply_pod, apply_referenced,
    apply_route, apply_routes, apply_service, apply_services, chosen, fan_out, initial_forest,
    populate, referenced_among, remove_namespace, remove_object, roots_for, roots_without,
    selected_pods, service_subtree, takes, with_child, without_selected,
};
use crate::rules::{labels_of, node_references, service_selects_pod};
use crate::tree::{
    ObjectRef, forest_without, identified, node_is, ref_of, root_index, without, without_list,
};
use crate::uniqueness::{lemma_origin, lemma_root_index_bounds};
use vstd::prelude::*;

verus! {

/// Whether every node under `node` lives in the namespace given.
pub open spec fn lives_in(node: NodeView, namespace: Option<Seq<char>>) -> bool
    decreases node, 0nat,
{
    lives_in_list(node.relatives, node.relatives.len(), namespace)
}

/// Whether each of the first `k` nodes, and every node under them, lives in
/// the namespace given.
pub open spec fn lives_in_list(nodes: Seq<NodeView>, k: nat, namespace: Option<Seq<char>>) -> bool
    decreases nodes, k,
{
    if k == 0 || k > nodes.len() {
        true
    } else {
        lives_in_list(nodes, (k - 1) as nat, namespace) && nodes[k - 1].metadata.namespace
            == namespace && lives_in(nodes[k - 1], namespace)
    }
}

/// Every node of the forest stands under the root of the namespace it
/// lives in.
pub open spec fn at_home(forest: Seq<NodeView>) -> bool {
    forall|i: int| 0 <= i < forest.len() ==> lives_in(#[trigger] forest[i], forest[i].metadata.name)
}

/// Whether the first `k` nodes live in a namespace goes by those nodes
/// alone.
pub proof fn lemma_lives_in_prefix(
    x: Seq<NodeView>,
    y: Seq<NodeView>,
    k: nat,
    namespace: Option<Seq<char>>,
)
    requires
        k <= x.len(),
        k <= y.len(),
        forall|j: int| 0 <= j < k ==> x[j] == y[j],
    ensures
        lives_in_list(x, k, namespace) == lives_in_list(y, k, namespace),
    decreases k,
{
    if k > 0 {
        lemma_lives_in_prefix(x, y, (k - 1) as nat, namespace);
    }
}

/// Taking an object out moves no node to another namespace.
pub proof fn lemma_without_lives_in(node: NodeView, gone: ObjectRef, namespace: Option<Seq<char>>)
    requires
        lives_in(node, namespace),
    ensures
        lives_in(without(node, gone), namespace),
    decreases node, 0nat,
{
    lemma_without_list_lives_in(node.relatives, node.relatives.len(), gone, namespace);
}

/// The same, for the first `k` nodes of a list.
pub proof fn lemma_without_list_lives_in(
    nodes: Seq<NodeView>,
    k: nat,
    gone: ObjectRef,
    namespace: Option<Seq<char>>,
)
    requires
        k <= nodes.len(),
        lives_in_list(nodes, k, namespace),
    ensures
        lives_in_list(without_list(nodes, k, gone), without_list(nodes, k, gone).len(), namespace),
    decreases nodes, k,
{
    if k > 0 {
        let rest = without_list(nodes, (k - 1) as nat, gone);
        lemma_without_list_lives_in(nodes, (k - 1) as nat, gone, namespace);
        if !node_is(nodes[k - 1], gone) {
            let kept = without(nodes[k - 1], gone);
            lemma_without_lives_in(nodes[k - 1], gone, namespace);
            lemma_lives_in_prefix(rest.push(kept), rest, rest.len(), namespace);
        }
    }
}

/// A node of the namespace attached under a node keeps all in the
/// namespace.
pub proof fn lemma_with_child_lives_in(node: NodeView, child: NodeView, namespace: Option<Seq<char>>)
    requires
        lives_in(node, namespace),
        child.metadata.namespace == namespace,
        lives_in(child, namespace),
    ensures
        lives_in(with_child(node, child), namespace),
{
    lemma_lives_in_prefix(node.relatives.push(child), node.relatives, node.relatives.len(), namespace);
}

/// Copies of a node of the namespace attached under routes keep all in the
/// namespace.
pub proof fn lemma_fan_out_lives_in(
    nodes: Seq<NodeView>,
    k: nat,
    name: Seq<char>,
    node: NodeView,
    namespace: Option<Seq<char>>,
)
    requires
        k <= nodes.len(),
        lives_in_list(nodes, k, namespace),
        node.metadata.namespace == namespace,
        lives_in(node, namespace),
    ensures
        lives_in_list(fan_out(nodes, name, node), k, namespace),
    decreases k,
{
    if k > 0 {
        lemma_fan_out_lives_in(nodes, (k - 1) as nat, name, node, namespace);
        if node_references(nodes[k - 1], name) {
            lemma_with_child_lives_in(nodes[k - 1], node, namespace);
        }
    }
}

/// A pod put under the services of its namespace keeps all in the
/// namespace.
pub proof fn lemma_adopt_lives_in(
    node: NodeView,
    pod: PodView,
    labels: Map<Seq<char>, Seq<char>>,
    name: Seq<char>,
)
    requires
        lives_in(node, pod.metadata.namespace),
    ensures
        lives_in(adopt(node, pod, labels, name), pod.metadata.namespace),
    decreases node, 0nat,
{
    let below = adopt_list(node.relatives, node.relatives.len(), pod, labels, name);
    lemma_adopt_list_lives_in(node.relatives, node.relatives.len(), pod, labels, name);
    if takes(node, pod, labels, name) {
        lemma_lives_in_prefix(
            below.push(pod_node(pod)),
            below,
            below.len(),
            pod.metadata.namespace,
        );
        assert(lives_in(pod_node(pod), pod.metadata.namespace));
    }
}

/// The same, for the first `k` nodes of a list.
pub proof fn lemma_adopt_list_lives_in(
    nodes: Seq<NodeView>,
    k: nat,
    pod: PodView,
    labels: Map<Seq<char>, Seq<char>>,
    name: Seq<char>,
)
    requires
        k <= nodes.len(),
        lives_in_list(nodes, k, pod.metadata.namespace),
    ensures
        adopt_list(nodes, k, pod, labels, name).len() == k,
        lives_in_list(adopt_list(nodes, k, pod, labels, name), k, pod.metadata.namespace),
    decreases nodes, k,
{
    if k > 0 {
        let rest = adopt_list(nodes, (k - 1) as nat, pod, labels, name);
        let last = adopt(nodes[k - 1], pod, labels, name);
        lemma_adopt_list_lives_in(nodes, (k - 1) as nat, pod, labels, name);
        lemma_lives_in_prefix(rest.push(last), rest, rest.len(), pod.metadata.namespace);
        lemma_adopt_lives_in(nodes[k - 1], pod, labels, name);
    }
}

/// The pods that a service selects live in its namespace.
pub proof fn lemma_selected_lives_in(service: ServiceView, pods: Seq<PodView>, k: nat)
    requires
        k <= pods.len(),
    ensures
        lives_in_list(
            selected_pods(service, pods, k),
            selected_pods(service, pods, k).len(),
            service.metadata.namespace,
        ),
    decreases k,
{
    if k > 0 {
        lemma_selected_lives_in(service, pods, (k - 1) as nat);
        let rest = selected_pods(service, pods, (k - 1) as nat);
        if service_selects_pod(service, pods[k - 1]) {
            lemma_lives_in_prefix(
                rest.push(pod_node(pods[k - 1])),
                rest,
                rest.len(),
                service.metadata.namespace,
            );
            assert(lives_in(pod_node(pods[k - 1]), service.metadata.namespace));
        }
    }
}

/// Applying a pod leaves every node at home.
pub proof fn lemma_apply_pod_home(forest: Seq<NodeView>, pod: PodView)
    requires
        at_home(forest),
    ensures
        at_home(apply_pod(forest, pod)),
{
    if identified(pod.metadata) {
        let r = ref_of(ResourceKind::Pod, pod.metadata);
        let cleared = forest_without(forest, r);
        let after = apply_pod(forest, pod);
        let i = root_index(cleared, pod.metadata.namespace, 0);
        lemma_root_index_bounds(cleared, pod.metadata.namespace, 0);
        assert forall|j: int| 0 <= j < after.len() implies lives_in(
            #[trigger] after[j],
            after[j].metadata.name,
        ) by {
            lemma_without_lives_in(forest[j], r, forest[j].metadata.name);
            if j == i {
                match chosen(cleared[i], pod.metadata.namespace, labels_of(pod.metadata)) {
                    Some(name) => {
                        lemma_adopt_lives_in(cleared[i], pod, labels_of(pod.metadata), name);
                    },
                    None => {
                        lemma_with_child_lives_in(
                            cleared[i],
                            pod_node(pod),
                            pod.metadata.namespace,
                        );
                    },
                }
            }
        }
    }
}

/// Taking the pods that a service selects out leaves every node at home.
pub proof fn lemma_without_selected_home(
    forest: Seq<NodeView>,
    service: ServiceView,
    pods: Seq<PodView>,
    k: nat,
)
    requires
        k <= pods.len(),
        at_home(forest),
    ensures
        at_home(without_selected(forest, service, pods, k)),
    decreases k,
{
    if k > 0 {
        lemma_without_selected_home(forest, service, pods, (k - 1) as nat);
        let rest = without_selected(forest, service, pods, (k - 1) as nat);
        if service_selects_pod(service, pods[k - 1]) {
            lemma_without_home(rest, ref_of(ResourceKind::Pod, pods[k - 1].metadata));
        }
    }
}

/// Taking an object out leaves every node at home.
pub proof fn lemma_without_home(forest: Seq<NodeView>, gone: ObjectRef)
    requires
        at_home(forest),
    ensures
        at_home(forest_without(forest, gone)),
{
    let after = forest_without(forest, gone);
    assert forall|j: int| 0 <= j < after.len() implies lives_in(
        #[trigger] after[j],
        after[j].metadata.name,
    ) by {
        lemma_without_lives_in(forest[j], gone, forest[j].metadata.name);
    }
}

/// Applying a service leaves every node at home.
pub proof fn lemma_apply_service_home(forest: Seq<NodeView>, service: ServiceView, pods: Seq<PodView>)
    requires
        at_home(forest),
    ensures
        at_home(apply_service(forest, service, pods)),
{
    if identified(service.metadata) {
        let namespace = service.metadata.namespace;
        let name = text_or_empty(service.metadata.name);
        let node = service_subtree(service, pods);
        let removed = forest_without(forest, ref_of(ResourceKind::Service, service.metadata));
        let cleared = without_selected(removed, service, pods, pods.len());
        lemma_without_home(forest, ref_of(ResourceKind::Service, service.metadata));
        lemma_without_selected_home(removed, service, pods, pods.len());
        let i = root_index(cleared, namespace, 0);
        lemma_root_index_bounds(cleared, namespace, 0);
        let spare = placeholder_namespace(text_or_empty(namespace));
        let rooted = if i >= cleared.len() {
            cleared.push(spare)
        } else {
            cleared
        };
        let after = apply_service(forest, service, pods);
        lemma_selected_lives_in(service, pods, pods.len());
        assert forall|j: int| 0 <= j < after.len() implies lives_in(
            #[trigger] after[j],
            after[j].metadata.name,
        ) by {
            if j == i {
                let root = rooted[i];
                if referenced_among(root.relatives, root.relatives.len(), name) {
                    lemma_fan_out_lives_in(
                        root.relatives,
                        root.relatives.len(),
                        name,
                        node,
                        namespace,
                    );
                } else {
                    lemma_with_child_lives_in(root, node, namespace);
                }
            }
        }
    }
}

proof fn lemma_apply_referenced_home(
    forest: Seq<NodeView>,
    route: HTTPRouteView,
    services: Seq<ServiceView>,
    k: nat,
    pods: Seq<PodView>,
)
    requires
        k <= services.len(),
        at_home(forest),
    ensures
        at_home(apply_referenced(forest, route, services, k, pods)),
    decreases k,
{
    if k > 0 {
        lemma_apply_referenced_home(forest, route, services, (k - 1) as nat, pods);
        lemma_apply_service_home(
            apply_referenced(forest, route, services, (k - 1) as nat, pods),
            services[k - 1],
            pods,
        );
    }
}

/// Applying a route leaves every node at home.
pub proof fn lemma_apply_route_home(
    forest: Seq<NodeView>,
    route: HTTPRouteView,
    services: Seq<ServiceView>,
    pods: Seq<PodView>,
)
    requires
        at_home(forest),
    ensures
        at_home(apply_route(forest, route, services, pods)),
{
    if identified(route.metadata) {
        let namespace = route.metadata.namespace;
        let cleared = forest_without(forest, ref_of(ResourceKind::HTTPRoute, route.metadata));
        lemma_without_home(forest, ref_of(ResourceKind::HTTPRoute, route.metadata));
        let i = root_index(cleared, namespace, 0);
        lemma_root_index_bounds(cleared, namespace, 0);
        if i < cleared.len() {
            let attached = cleared.update(i, with_child(cleared[i], route_node(route)));
            assert forall|j: int| 0 <= j < attached.len() implies lives_in(
                #[trigger] attached[j],
                attached[j].metadata.name,
            ) by {
                if j == i {
                    lemma_with_child_lives_in(cleared[i], route_node(route), namespace);
                }
            }
            lemma_apply_referenced_home(attached, route, services, services.len(), pods);
        }
    }
}

/// A fill leaves every node at home.
pub proof fn lemma_populate_home(
    forest: Seq<NodeView>,
    scope: Option<Seq<char>>,
    routes: Seq<HTTPRouteView>,
    services: Seq<ServiceView>,
    pods: Seq<PodView>,
)
    requires
        at_home(forest),
    ensures
        at_home(populate(forest, scope, routes, services, pods)),
{
    lemma_apply_routes_home(forest, scope, routes, routes.len(), services, pods);
    let routed = apply_routes(forest, scope, routes, routes.len(), services, pods);
    lemma_apply_services_home(routed, scope, services, services.len(), pods);
    let served = apply_services(routed, scope, services, services.len(), pods);
    lemma_apply_missing_pods_home(served, scope, pods, pods.len());
}

proof fn lemma_apply_routes_home(
    forest: Seq<NodeView>,
    scope: Option<Seq<char>>,
    routes: Seq<HTTPRouteView>,
    k: nat,
    services: Seq<ServiceView>,
    pods: Seq<PodView>,
)
    requires
        k <= routes.len(),
        at_home(forest),
    ensures
        at_home(apply_routes(forest, scope, routes, k, services, pods)),
    decreases k,
{
    if k > 0 {
        lemma_apply_routes_home(forest, scope, routes, (k - 1) as nat, services, pods);
        lemma_apply_route_home(
            apply_routes(forest, scope, routes, (k - 1) as nat, services, pods),
            routes[k - 1],
            services,
            pods,
        );
    }
}

proof fn lemma_apply_services_home(
    forest: Seq<NodeView>,
    scope: Option<Seq<char>>,
    services: Seq<ServiceView>,
    k: nat,
    pods: Seq<PodView>,
)
    requires
        k <= services.len(),
        at_home(forest),
    ensures
        at_home(apply_services(forest, scope, services, k, pods)),
    decreases k,
{
    if k > 0 {
        lemma_apply_services_home(forest, scope, services, (k - 1) as nat, pods);
        lemma_apply_service_home(
            apply_services(forest, scope, services, (k - 1) as nat, pods),
            services[k - 1],
            pods,
        );
    }
}

proof fn lemma_apply_missing_pods_home(
    forest: Seq<NodeView>,
    scope: Option<Seq<char>>,
    pods: Seq<PodView>,
    k: nat,
)
    requires
        k <= pods.len(),
        at_home(forest),
    ensures
        at_home(apply_missing_pods(forest, scope, pods, k)),
    decreases k,
{
    if k > 0 {
        lemma_apply_missing_pods_home(forest, scope, pods, (k - 1) as nat);
        lemma_apply_pod_home(apply_missing_pods(forest, scope, pods, (k - 1) as nat), pods[k - 1]);
    }
}

/// Applying a namespace leaves every node at home.
pub proof fn lemma_apply_namespace_home(
    forest: Seq<NodeView>,
    namespace: NamespaceView,
    routes: Seq<HTTPRouteView>,
    services: Seq<ServiceView>,
    pods: Seq<PodView>,
)
    requires
        at_home(forest),
    ensures
        at_home(apply_namespace(forest, namespace, routes, services, pods)),
{
    if namespace.metadata.name is Some {
        let i = root_index(forest, namespace.metadata.name, 0);
        lemma_root_index_bounds(forest, namespace.metadata.name, 0);
        if i < forest.len() {
            let after = apply_namespace(forest, namespace, routes, services, pods);
            assert forall|j: int| 0 <= j < after.len() implies lives_in(
                #[trigger] after[j],
                after[j].metadata.name,
            ) by {}
        } else {
            let grown = forest.push(namespace_node(namespace));
            assert forall|j: int| 0 <= j < grown.len() implies lives_in(
                #[trigger] grown[j],
                grown[j].metadata.name,
            ) by {}
            lemma_populate_home(grown, namespace.metadata.name, routes, services, pods);
        }
    }
}

/// Deleting a pod, a service or a route leaves every node at home.
pub proof fn lemma_delete_home(forest: Seq<NodeView>, kind: ResourceKind, metadata: ObjectMetaView)
    requires
        at_home(forest),
    ensures
        at_home(remove_object(forest, kind, metadata)),
{
    if identified(metadata) {
        lemma_without_home(forest, ref_of(kind, metadata));
    }
}

/// Deleting a namespace leaves every node at home.
pub proof fn lemma_delete_namespace_home(forest: Seq<NodeView>, namespace: NamespaceView)
    requires
        at_home(forest),
    ensures
        at_home(remove_namespace(forest, namespace)),
{
    match namespace.metadata.name {
        Some(name) => {
            let after = roots_without(forest, forest.len(), name);
            assert forall|j: int| 0 <= j < after.len() implies lives_in(
                #[trigger] after[j],
                after[j].metadata.name,
            ) by {
                lemma_origin(forest, forest.len(), name, j);
            }
        },
        None => {},
    }
}

/// Nothing stands under the roots made for a list of namespaces, so every
/// node is at home.
pub proof fn lemma_roots_for_home(namespaces: Seq<NamespaceView>, k: nat)
    requires
        k <= namespaces.len(),
    ensures
        at_home(roots_for(namespaces, k)),
    decreases k,
{
    if k > 0 {
        lemma_roots_for_home(namespaces, (k - 1) as nat);
        let rest = roots_for(namespaces, (k - 1) as nat);
        let now = roots_for(namespaces, k);
        assert forall|j: int| 0 <= j < now.len() implies lives_in(
            #[trigger] now[j],
            now[j].metadata.name,
        ) by {}
    }
}

/// In the first forest every node stands under the root of the namespace
/// it lives in.
pub proof fn law_initial_forest_at_home(
    namespaces: Seq<NamespaceView>,
    routes: Seq<HTTPRouteView>,
    services: Seq<ServiceView>,
    pods: Seq<PodView>,
)
    ensures
        at_home(initial_forest(namespaces, routes, services, pods)),
{
    lemma_roots_for_home(namespaces, namespaces.len());
    lemma_populate_home(roots_for(namespaces, namespaces.len()), None, routes, services, pods);
}

} // verus!
