//! What a notification does to the forest. An applied object is first taken
//! out wherever it stands and then put where the rules say it belongs, so
//! that it never stands in two places; a deleted object is taken out with
//! all that stands under it.

use crate::labels::Labels;
use crate::node::{
    HierarchyNode, NodeView, ResourceKind, lemma_relatives_view, namespace_node, new_httproute,
    new_namespace, new_placeholder_namespace, new_pod, new_service, placeholder_namespace, pod_node,
    route_node, service_node, text_or_empty,
};
use crate::objects::{
    HTTPRoute, HTTPRouteView, Namespace, NamespaceView, ObjectMeta, ObjectMetaView, Pod, PodView,
    Service, ServiceView,
};
use crate::rules::{
    labels_of, node_references, node_selects, route_node_references, route_references,
    route_references_service, service_node_selects, service_selects, service_selects_pod,
};
use crate::text::{opt_as_str, opt_str_eq, str_eq};
use crate::tree::{
    contains_object, detach, find_root, forest_holds, forest_without, has_identity, identified,
    ref_of, root_index,
};
use crate::uniqueness::{law_initial_forest_roots, same_tops};
use vstd::prelude::*;

verus! {

/// A node with one more node attached under it, after those it has.
pub open spec fn with_child(node: NodeView, child: NodeView) -> NodeView {
    NodeView { relatives: node.relatives.push(child), ..node }
}

/// Attaches a node under another, after those that stand there.
pub fn attach(node: &mut HierarchyNode, child: HierarchyNode)
    ensures
        final(node).deep_view() == with_child(old(node).deep_view(), child.deep_view()),
{
    node.relatives.push(child);
    proof {
        lemma_relatives_view(*old(node));
        lemma_relatives_view(*node);
        assert(node.relatives.deep_view() =~= old(node).relatives.deep_view().push(
            child.deep_view(),
        ));
    }
}

// ---------------------------------------------------------------------------
// Pods

/// Whether `node` or a node under it is a service that selects an object of
/// the given namespace and labels.
pub open spec fn selects_within(
    node: NodeView,
    namespace: Option<Seq<char>>,
    labels: Map<Seq<char>, Seq<char>>,
) -> bool
    decreases node, 0nat,
{
    node_selects(node, namespace, labels) || selects_within_list(
        node.relatives,
        node.relatives.len(),
        namespace,
        labels,
    )
}

/// Whether one of the first `k` nodes, or a node under one of them, is a
/// service that selects an object of the given namespace and labels.
pub open spec fn selects_within_list(
    nodes: Seq<NodeView>,
    k: nat,
    namespace: Option<Seq<char>>,
    labels: Map<Seq<char>, Seq<char>>,
) -> bool
    decreases nodes, k,
{
    if k == 0 || k > nodes.len() {
        false
    } else {
        selects_within_list(nodes, (k - 1) as nat, namespace, labels) || selects_within(
            nodes[k - 1],
            namespace,
            labels,
        )
    }
}

/// The name of the first service, at or under `node`, that selects the
/// namespace and labels given: the node itself before the nodes under it,
/// and of those the earlier before the later. None where none selects them.
pub open spec fn chosen(
    node: NodeView,
    namespace: Option<Seq<char>>,
    labels: Map<Seq<char>, Seq<char>>,
) -> Option<Seq<char>>
    decreases node, 0nat,
{
    if node_selects(node, namespace, labels) {
        Some(node.name)
    } else {
        chosen_list(node.relatives, node.relatives.len(), namespace, labels)
    }
}

/// The name of the first service among the first `k` nodes, or under them,
/// that selects the namespace and labels given.
pub open spec fn chosen_list(
    nodes: Seq<NodeView>,
    k: nat,
    namespace: Option<Seq<char>>,
    labels: Map<Seq<char>, Seq<char>>,
) -> Option<Seq<char>>
    decreases nodes, k,
{
    if k == 0 || k > nodes.len() {
        None
    } else {
        match chosen_list(nodes, (k - 1) as nat, namespace, labels) {
            Some(name) => Some(name),
            None => chosen(nodes[k - 1], namespace, labels),
        }
    }
}

/// A service is chosen exactly where a service selects.
pub proof fn lemma_chosen_selects(
    node: NodeView,
    namespace: Option<Seq<char>>,
    labels: Map<Seq<char>, Seq<char>>,
)
    ensures
        chosen(node, namespace, labels) is Some <==> selects_within(node, namespace, labels),
    decreases node, 0nat,
{
    lemma_chosen_list_selects(node.relatives, node.relatives.len(), namespace, labels);
}

/// A service is chosen among the first `k` nodes exactly where a service
/// among them, or under them, selects.
pub proof fn lemma_chosen_list_selects(
    nodes: Seq<NodeView>,
    k: nat,
    namespace: Option<Seq<char>>,
    labels: Map<Seq<char>, Seq<char>>,
)
    requires
        k <= nodes.len(),
    ensures
        chosen_list(nodes, k, namespace, labels) is Some <==> selects_within_list(
            nodes,
            k,
            namespace,
            labels,
        ),
    decreases nodes, k,
{
    if k > 0 {
        lemma_chosen_list_selects(nodes, (k - 1) as nat, namespace, labels);
        lemma_chosen_selects(nodes[k - 1], namespace, labels);
    }
}

/// Whether a node takes the pod: it is a service of the given name that
/// selects the labels, in the namespace of the pod. Every copy of a service
/// takes what one copy takes.
pub open spec fn takes(
    node: NodeView,
    pod: PodView,
    labels: Map<Seq<char>, Seq<char>>,
    name: Seq<char>,
) -> bool {
    node_selects(node, pod.metadata.namespace, labels) && node.name == name
}

/// A node with the pod attached, as the last node, under every node at or
/// under it that takes the pod.
pub open spec fn adopt(
    node: NodeView,
    pod: PodView,
    labels: Map<Seq<char>, Seq<char>>,
    name: Seq<char>,
) -> NodeView
    decreases node, 0nat,
{
    let below = adopt_list(node.relatives, node.relatives.len(), pod, labels, name);
    NodeView {
        relatives: if takes(node, pod, labels, name) {
            below.push(pod_node(pod))
        } else {
            below
        },
        ..node
    }
}

/// The first `k` nodes, with the pod attached under every node among them,
/// or under them, that takes the pod.
pub open spec fn adopt_list(
    nodes: Seq<NodeView>,
    k: nat,
    pod: PodView,
    labels: Map<Seq<char>, Seq<char>>,
    name: Seq<char>,
) -> Seq<NodeView>
    decreases nodes, k,
{
    if k == 0 || k > nodes.len() {
        Seq::empty()
    } else {
        adopt_list(nodes, (k - 1) as nat, pod, labels, name).push(
            adopt(nodes[k - 1], pod, labels, name),
        )
    }
}

/// Finds the first service, at or under `node`, that selects the namespace
/// and labels given, and returns its name.
pub fn first_matching_service(node: &HierarchyNode, namespace: Option<&str>, labels: &Labels) -> (name:
    Option<String>)
    ensures
        name.deep_view() == chosen(node.deep_view(), namespace.deep_view(), labels@),
    decreases node,
{
    if service_node_selects(node, namespace, labels) {
        return Some(node.name.clone());
    }
    let ghost views = node.relatives.deep_view();
    proof {
        lemma_relatives_view(*node);
    }
    let mut i: usize = 0;
    while i < node.relatives.len()
        invariant
            i <= node.relatives@.len(),
            views == node.relatives.deep_view(),
            views == node.deep_view().relatives,
            !node_selects(node.deep_view(), namespace.deep_view(), labels@),
            chosen_list(views, i as nat, namespace.deep_view(), labels@) is None,
        decreases node.relatives.len() - i,
    {
        let child = &node.relatives[i];
        let found = first_matching_service(child, namespace, labels);
        if found.is_some() {
            proof {
                lemma_chosen_list_kept(
                    views,
                    (i + 1) as nat,
                    views.len(),
                    namespace.deep_view(),
                    labels@,
                );
            }
            return found;
        }
        i += 1;
    }
    None
}

/// What is chosen among the first `k` nodes is chosen among the first `n`,
/// for `n` no less than `k`.
pub proof fn lemma_chosen_list_kept(
    nodes: Seq<NodeView>,
    k: nat,
    n: nat,
    namespace: Option<Seq<char>>,
    labels: Map<Seq<char>, Seq<char>>,
)
    requires
        k <= n <= nodes.len(),
        chosen_list(nodes, k, namespace, labels) is Some,
    ensures
        chosen_list(nodes, n, namespace, labels) == chosen_list(nodes, k, namespace, labels),
    decreases n - k,
{
    if k < n {
        lemma_chosen_list_kept(nodes, k, (n - 1) as nat, namespace, labels);
    }
}

/// Attaches the pod under every service of the given name, at or under
/// `node`, that selects `pod_labels` in the namespace of the pod.
pub fn add_pod_to_matching_services(
    node: &mut HierarchyNode,
    pod: &Pod,
    pod_labels: &Labels,
    service_name: &str,
)
    ensures
        final(node).deep_view() == adopt(
            old(node).deep_view(),
            pod.deep_view(),
            pod_labels@,
            service_name@,
        ),
    decreases *old(node),
{
    let ghost before = node.deep_view();
    proof {
        lemma_relatives_view(*node);
    }
    let mut i: usize = 0;
    while i < node.relatives.len()
        invariant
            i <= node.relatives@.len(),
            node.relatives@.len() == old(node).relatives@.len(),
            before == old(node).deep_view(),
            before.relatives == old(node).relatives.deep_view(),
            node.kind == old(node).kind,
            node.name == old(node).name,
            node.metadata == old(node).metadata,
            node.spec == old(node).spec,
            node.resource_metadata == old(node).resource_metadata,
            forall|j: int| i <= j < node.relatives@.len() ==> node.relatives@[j] == old(
                node,
            ).relatives@[j],
            node.relatives.deep_view().subrange(0, i as int) == adopt_list(
                before.relatives,
                i as nat,
                pod.deep_view(),
                pod_labels@,
                service_name@,
            ),
        decreases node.relatives.len() - i,
    {
        add_pod_to_matching_services(&mut node.relatives[i], pod, pod_labels, service_name);
        i += 1;
    }
    proof {
        lemma_relatives_view(*node);
        assert(node.relatives.deep_view().subrange(0, i as int) =~= node.relatives.deep_view());
    }
    if service_node_selects(node, opt_as_str(&pod.metadata.namespace), pod_labels) && str_eq(
        node.name.as_str(),
        service_name,
    ) {
        attach(node, new_pod(pod));
    }
}

/// The root of a pod's namespace with the pod put where it belongs: under
/// every copy of the first service that selects it, else directly under the
/// root.
pub open spec fn place_pod(root: NodeView, pod: PodView) -> NodeView {
    match chosen(root, pod.metadata.namespace, labels_of(pod.metadata)) {
        Some(name) => adopt(root, pod, labels_of(pod.metadata), name),
        None => with_child(root, pod_node(pod)),
    }
}

/// The forest after a pod was applied. A pod that lacks a name or a
/// namespace changes nothing. Else the pod is taken out wherever it stands;
/// then, where its namespace has a root, it is put under the first service
/// under that root that selects it, and under every other copy of that
/// service, or directly under the root where no service selects it. Where
/// its namespace has no root yet the pod stays out.
pub open spec fn apply_pod(forest: Seq<NodeView>, pod: PodView) -> Seq<NodeView> {
    if !identified(pod.metadata) {
        forest
    } else {
        let cleared = forest_without(forest, ref_of(ResourceKind::Pod, pod.metadata));
        let i = root_index(cleared, pod.metadata.namespace, 0);
        if i >= cleared.len() {
            cleared
        } else {
            cleared.update(i, place_pod(cleared[i], pod))
        }
    }
}

/// Brings the forest in line with a pod that was created or changed.
pub fn update_pod_relationships(hierarchy: &mut Vec<HierarchyNode>, pod: &Pod)
    ensures
        final(hierarchy).deep_view() == apply_pod(old(hierarchy).deep_view(), pod.deep_view()),
{
    if !has_identity(&pod.metadata) {
        return;
    }
    let pod_name = match &pod.metadata.name {
        Some(n) => n.as_str(),
        None => "",
    };
    let pod_ns = opt_as_str(&pod.metadata.namespace);
    detach(hierarchy, ResourceKind::Pod, pod_name, pod_ns);
    let i = find_root(hierarchy, pod_ns);
    if i < hierarchy.len() {
        let empty = Labels::new();
        let pod_labels = match &pod.metadata.labels {
            Some(l) => l,
            None => &empty,
        };
        match first_matching_service(&hierarchy[i], pod_ns, pod_labels) {
            Some(service_name) => {
                add_pod_to_matching_services(
                    &mut hierarchy[i],
                    pod,
                    pod_labels,
                    service_name.as_str(),
                );
            },
            None => {
                attach(&mut hierarchy[i], new_pod(pod));
            },
        }
    }
}

// ---------------------------------------------------------------------------
// Services

/// The nodes of those of the first `k` pods that the service selects, in the
/// order of the pods.
pub open spec fn selected_pods(service: ServiceView, pods: Seq<PodView>, k: nat) -> Seq<NodeView>
    decreases k,
{
    if k == 0 || k > pods.len() {
        Seq::empty()
    } else {
        let rest = selected_pods(service, pods, (k - 1) as nat);
        if service_selects_pod(service, pods[k - 1]) {
            rest.push(pod_node(pods[k - 1]))
        } else {
            rest
        }
    }
}

/// The node of a service with the pods it selects attached under it.
pub open spec fn service_subtree(service: ServiceView, pods: Seq<PodView>) -> NodeView {
    NodeView { relatives: selected_pods(service, pods, pods.len()), ..service_node(service) }
}

/// The forest with those of the first `k` pods that the service selects
/// taken out wherever they stand.
pub open spec fn without_selected(
    forest: Seq<NodeView>,
    service: ServiceView,
    pods: Seq<PodView>,
    k: nat,
) -> Seq<NodeView>
    decreases k,
{
    if k == 0 || k > pods.len() {
        forest
    } else {
        let rest = without_selected(forest, service, pods, (k - 1) as nat);
        if service_selects_pod(service, pods[k - 1]) {
            forest_without(rest, ref_of(ResourceKind::Pod, pods[k - 1].metadata))
        } else {
            rest
        }
    }
}

/// Whether one of the first `k` nodes is a route that refers to a service of
/// the given name.
pub open spec fn referenced_among(nodes: Seq<NodeView>, k: nat, name: Seq<char>) -> bool
    decreases k,
{
    if k == 0 || k > nodes.len() {
        false
    } else {
        referenced_among(nodes, (k - 1) as nat, name) || node_references(nodes[k - 1], name)
    }
}

/// The nodes, each route among them that refers to a service of the given
/// name with a copy of `node` attached under it.
pub open spec fn fan_out(nodes: Seq<NodeView>, name: Seq<char>, node: NodeView) -> Seq<NodeView> {
    Seq::new(
        nodes.len(),
        |i: int|
            if node_references(nodes[i], name) {
                with_child(nodes[i], node)
            } else {
                nodes[i]
            },
    )
}

/// A root with the node of a service put where it belongs: under every route
/// directly under the root that refers to the service, or, where none does,
/// directly under the root.
pub open spec fn place_service(root: NodeView, node: NodeView, name: Seq<char>) -> NodeView {
    if referenced_among(root.relatives, root.relatives.len(), name) {
        NodeView { relatives: fan_out(root.relatives, name, node), ..root }
    } else {
        with_child(root, node)
    }
}

/// The forest after a service was applied. A service that lacks a name or a
/// namespace changes nothing. Else the service is taken out wherever it
/// stands, with all under it, and so is every pod that it selects; a root is
/// made for its namespace where there is none; and the node of the service,
/// with the pods it selects under it, is put under every route of that root
/// that refers to it, or directly under the root where none does.
pub open spec fn apply_service(
    forest: Seq<NodeView>,
    service: ServiceView,
    pods: Seq<PodView>,
) -> Seq<NodeView> {
    if !identified(service.metadata) {
        forest
    } else {
        let cleared = without_selected(
            forest_without(forest, ref_of(ResourceKind::Service, service.metadata)),
            service,
            pods,
            pods.len(),
        );
        let i = root_index(cleared, service.metadata.namespace, 0);
        let rooted = if i >= cleared.len() {
            cleared.push(placeholder_namespace(text_or_empty(service.metadata.namespace)))
        } else {
            cleared
        };
        rooted.update(
            i,
            place_service(
                rooted[i],
                service_subtree(service, pods),
                text_or_empty(service.metadata.name),
            ),
        )
    }
}

/// The text of an optional string; the empty text where it is absent.
pub fn text_of(name: &Option<String>) -> (r: &str)
    ensures
        r@ == text_or_empty(name.deep_view()),
{
    match name {
        Some(n) => n.as_str(),
        None => {
            proof {
                reveal_strlit("");
            }
            ""
        },
    }
}

/// Puts the node of a service where it belongs under the root of its
/// namespace.
pub fn place_service_node(root: &mut HierarchyNode, node: HierarchyNode, name: &str)
    ensures
        final(root).deep_view() == place_service(old(root).deep_view(), node.deep_view(), name@),
{
    let ghost before = root.deep_view();
    proof {
        lemma_relatives_view(*root);
    }
    let mut placed = false;
    let mut i: usize = 0;
    while i < root.relatives.len()
        invariant
            i <= root.relatives@.len(),
            root.relatives@.len() == before.relatives.len(),
            before == old(root).deep_view(),
            before.relatives == old(root).relatives.deep_view(),
            root.kind == old(root).kind,
            root.name == old(root).name,
            root.metadata == old(root).metadata,
            root.spec == old(root).spec,
            root.resource_metadata == old(root).resource_metadata,
            placed == referenced_among(before.relatives, i as nat, name@),
            !placed ==> forall|j: int|
                0 <= j < i ==> root.relatives@[j].deep_view() == before.relatives[j],
            forall|j: int|
                0 <= j < i ==> root.relatives@[j].deep_view() == fan_out(
                    before.relatives,
                    name@,
                    node.deep_view(),
                )[j],
            forall|j: int|
                i <= j < root.relatives@.len() ==> root.relatives@[j].deep_view()
                    == before.relatives[j],
        decreases root.relatives.len() - i,
    {
        if route_node_references(&root.relatives[i], name) {
            attach(&mut root.relatives[i], node.clone());
            placed = true;
        }
        i += 1;
    }
    if !placed {
        proof {
            assert(root.relatives.deep_view() =~= before.relatives);
            lemma_relatives_view(*root);
        }
        attach(root, node);
    } else {
        proof {
            assert(root.relatives.deep_view() =~= fan_out(
                before.relatives,
                name@,
                node.deep_view(),
            ));
            lemma_relatives_view(*root);
        }
    }
}

/// Brings the forest in line with a service that was created or changed,
/// given the pods that are known.
pub fn update_service_relationships(
    hierarchy: &mut Vec<HierarchyNode>,
    service: &Service,
    pods: &[Pod],
)
    ensures
        final(hierarchy).deep_view() == apply_service(
            old(hierarchy).deep_view(),
            service.deep_view(),
            pods.deep_view(),
        ),
{
    if !has_identity(&service.metadata) {
        return;
    }
    let service_name = text_of(&service.metadata.name);
    let service_ns = opt_as_str(&service.metadata.namespace);
    detach(hierarchy, ResourceKind::Service, service_name, service_ns);
    let ghost removed = hierarchy.deep_view();
    let ghost sv = service.deep_view();
    let ghost pv = pods.deep_view();
    let mut node = new_service(service);
    let mut k: usize = 0;
    while k < pods.len()
        invariant
            k <= pods@.len(),
            sv == service.deep_view(),
            pv == pods.deep_view(),
            hierarchy.deep_view() == without_selected(removed, sv, pv, k as nat),
            node.deep_view() == (NodeView {
                relatives: selected_pods(sv, pv, k as nat),
                ..service_node(sv)
            }),
        decreases pods.len() - k,
    {
        let pod = &pods[k];
        if service_selects(service, pod) {
            detach(
                hierarchy,
                ResourceKind::Pod,
                text_of(&pod.metadata.name),
                opt_as_str(&pod.metadata.namespace),
            );
            attach(&mut node, new_pod(pod));
        }
        k += 1;
    }
    let i = find_root(hierarchy, service_ns);
    if i >= hierarchy.len() {
        let placeholder = new_placeholder_namespace(text_of(&service.metadata.namespace));
        hierarchy.push(placeholder);
    }
    place_service_node(&mut hierarchy[i], node, service_name);
}

// ---------------------------------------------------------------------------
// Routes

/// The forest after each of the first `k` services that the route refers to
/// was applied, in their order.
pub open spec fn apply_referenced(
    forest: Seq<NodeView>,
    route: HTTPRouteView,
    services: Seq<ServiceView>,
    k: nat,
    pods: Seq<PodView>,
) -> Seq<NodeView>
    decreases k,
{
    if k == 0 || k > services.len() {
        forest
    } else {
        let rest = apply_referenced(forest, route, services, (k - 1) as nat, pods);
        if route_references_service(route, services[k - 1]) {
            apply_service(rest, services[k - 1], pods)
        } else {
            rest
        }
    }
}

/// The forest after a route was applied. A route that lacks a name or a
/// namespace changes nothing. Else the route is taken out wherever it
/// stands, with all under it. Where its namespace has a root, a fresh node
/// for the route is attached under that root, and every known service that
/// the route refers to is applied, which moves it under the route. Where
/// its namespace has no root the route stays out.
pub open spec fn apply_route(
    forest: Seq<NodeView>,
    route: HTTPRouteView,
    services: Seq<ServiceView>,
    pods: Seq<PodView>,
) -> Seq<NodeView> {
    if !identified(route.metadata) {
        forest
    } else {
        let cleared = forest_without(forest, ref_of(ResourceKind::HTTPRoute, route.metadata));
        let i = root_index(cleared, route.metadata.namespace, 0);
        if i >= cleared.len() {
            cleared
        } else {
            apply_referenced(
                cleared.update(i, with_child(cleared[i], route_node(route))),
                route,
                services,
                services.len(),
                pods,
            )
        }
    }
}

/// Brings the forest in line with a route that was created or changed, given
/// the services and pods that are known.
pub fn update_httproute_relationships(
    hierarchy: &mut Vec<HierarchyNode>,
    httproute: &HTTPRoute,
    services: &[Service],
    pods: &[Pod],
)
    ensures
        final(hierarchy).deep_view() == apply_route(
            old(hierarchy).deep_view(),
            httproute.deep_view(),
            services.deep_view(),
            pods.deep_view(),
        ),
{
    if !has_identity(&httproute.metadata) {
        return;
    }
    let httproute_name = text_of(&httproute.metadata.name);
    let httproute_ns = opt_as_str(&httproute.metadata.namespace);
    detach(hierarchy, ResourceKind::HTTPRoute, httproute_name, httproute_ns);
    let ghost cleared = hierarchy.deep_view();
    let i = find_root(hierarchy, httproute_ns);
    if i < hierarchy.len() {
        attach(&mut hierarchy[i], new_httproute(httproute));
        let ghost attached = hierarchy.deep_view();
        assert(attached =~= cleared.update(
            i as int,
            with_child(cleared[i as int], route_node(httproute.deep_view())),
        ));
        let ghost sv = services.deep_view();
        let mut k: usize = 0;
        while k < services.len()
            invariant
                k <= services@.len(),
                sv == services.deep_view(),
                hierarchy.deep_view() == apply_referenced(
                    attached,
                    httproute.deep_view(),
                    sv,
                    k as nat,
                    pods.deep_view(),
                ),
            decreases services.len() - k,
        {
            let service = &services[k];
            if route_references(httproute, service) {
                update_service_relationships(hierarchy, service, pods);
            }
            k += 1;
        }
    }
}

// ---------------------------------------------------------------------------
// Filling a forest from what is known

/// Whether an object counts for a fill: every object does where `scope` is
/// none, else those that live in the namespace `scope`.
pub open spec fn in_scope(metadata: ObjectMetaView, scope: Option<Seq<char>>) -> bool {
    scope is None || metadata.namespace == scope
}

/// Whether an object counts for a fill.
pub fn is_in_scope(metadata: &ObjectMeta, scope: Option<&str>) -> (r: bool)
    ensures
        r == in_scope(metadata.deep_view(), scope.deep_view()),
{
    scope.is_none() || opt_str_eq(opt_as_str(&metadata.namespace), scope)
}

/// The forest after each of the first `k` routes that counts was applied.
pub open spec fn apply_routes(
    forest: Seq<NodeView>,
    scope: Option<Seq<char>>,
    routes: Seq<HTTPRouteView>,
    k: nat,
    services: Seq<ServiceView>,
    pods: Seq<PodView>,
) -> Seq<NodeView>
    decreases k,
{
    if k == 0 || k > routes.len() {
        forest
    } else {
        let rest = apply_routes(forest, scope, routes, (k - 1) as nat, services, pods);
        if in_scope(routes[k - 1].metadata, scope) {
            apply_route(rest, routes[k - 1], services, pods)
        } else {
            rest
        }
    }
}

/// The forest after each of the first `k` services that counts, and whose
/// namespace had a root when its turn came, was applied. A fill makes no
/// root: a service whose namespace has none stays out.
pub open spec fn apply_services(
    forest: Seq<NodeView>,
    scope: Option<Seq<char>>,
    services: Seq<ServiceView>,
    k: nat,
    pods: Seq<PodView>,
) -> Seq<NodeView>
    decreases k,
{
    if k == 0 || k > services.len() {
        forest
    } else {
        let rest = apply_services(forest, scope, services, (k - 1) as nat, pods);
        if in_scope(services[k - 1].metadata, scope) && root_index(
            rest,
            services[k - 1].metadata.namespace,
            0,
        ) < rest.len() {
            apply_service(rest, services[k - 1], pods)
        } else {
            rest
        }
    }
}

/// The forest after each of the first `k` pods that counts, and that stood
/// nowhere in the forest when its turn came, was applied.
pub open spec fn apply_missing_pods(
    forest: Seq<NodeView>,
    scope: Option<Seq<char>>,
    pods: Seq<PodView>,
    k: nat,
) -> Seq<NodeView>
    decreases k,
{
    if k == 0 || k > pods.len() {
        forest
    } else {
        let rest = apply_missing_pods(forest, scope, pods, (k - 1) as nat);
        if in_scope(pods[k - 1].metadata, scope) && !forest_holds(
            rest,
            rest.len(),
            ref_of(ResourceKind::Pod, pods[k - 1].metadata),
        ) {
            apply_pod(rest, pods[k - 1])
        } else {
            rest
        }
    }
}

/// The forest after all that is known and counts was put in under the
/// roots there are: first the routes, then the services, then the pods that
/// no service took. What lives in a namespace without a root stays out, and
/// no root is added.
pub open spec fn populate(
    forest: Seq<NodeView>,
    scope: Option<Seq<char>>,
    routes: Seq<HTTPRouteView>,
    services: Seq<ServiceView>,
    pods: Seq<PodView>,
) -> Seq<NodeView> {
    apply_missing_pods(
        apply_services(
            apply_routes(forest, scope, routes, routes.len(), services, pods),
            scope,
            services,
            services.len(),
            pods,
        ),
        scope,
        pods,
        pods.len(),
    )
}

/// Puts into the forest all that is known and counts: the routes, then the
/// services, then the pods that stand nowhere yet.
pub fn fill(
    hierarchy: &mut Vec<HierarchyNode>,
    scope: Option<&str>,
    routes: &[HTTPRoute],
    services: &[Service],
    pods: &[Pod],
)
    ensures
        final(hierarchy).deep_view() == populate(
            old(hierarchy).deep_view(),
            scope.deep_view(),
            routes.deep_view(),
            services.deep_view(),
            pods.deep_view(),
        ),
{
    let ghost start = hierarchy.deep_view();
    let ghost rv = routes.deep_view();
    let ghost sv = services.deep_view();
    let ghost pv = pods.deep_view();
    let mut k: usize = 0;
    while k < routes.len()
        invariant
            k <= routes@.len(),
            rv == routes.deep_view(),
            sv == services.deep_view(),
            pv == pods.deep_view(),
            hierarchy.deep_view() == apply_routes(start, scope.deep_view(), rv, k as nat, sv, pv),
        decreases routes.len() - k,
    {
        let route = &routes[k];
        if is_in_scope(&route.metadata, scope) {
            update_httproute_relationships(hierarchy, route, services, pods);
        }
        k += 1;
    }
    let ghost routed = hierarchy.deep_view();
    let mut k: usize = 0;
    while k < services.len()
        invariant
            k <= services@.len(),
            sv == services.deep_view(),
            pv == pods.deep_view(),
            hierarchy.deep_view() == apply_services(routed, scope.deep_view(), sv, k as nat, pv),
        decreases services.len() - k,
    {
        let service = &services[k];
        if is_in_scope(&service.metadata, scope) && find_root(
            hierarchy,
            opt_as_str(&service.metadata.namespace),
        ) < hierarchy.len() {
            update_service_relationships(hierarchy, service, pods);
        }
        k += 1;
    }
    let ghost served = hierarchy.deep_view();
    let mut k: usize = 0;
    while k < pods.len()
        invariant
            k <= pods@.len(),
            pv == pods.deep_view(),
            hierarchy.deep_view() == apply_missing_pods(served, scope.deep_view(), pv, k as nat),
        decreases pods.len() - k,
    {
        let pod = &pods[k];
        if is_in_scope(&pod.metadata, scope) && !contains_object(
            hierarchy,
            ResourceKind::Pod,
            text_of(&pod.metadata.name),
            opt_as_str(&pod.metadata.namespace),
        ) {
            update_pod_relationships(hierarchy, pod);
        }
        k += 1;
    }
}

// ---------------------------------------------------------------------------
// Namespaces

/// The forest after a namespace was applied. A namespace without a name
/// changes nothing. Where the namespace has a root already, the root is made
/// anew from the namespace and keeps what stands under it. Else a root is
/// added for it, and all that is known to live in the namespace is put in.
pub open spec fn apply_namespace(
    forest: Seq<NodeView>,
    namespace: NamespaceView,
    routes: Seq<HTTPRouteView>,
    services: Seq<ServiceView>,
    pods: Seq<PodView>,
) -> Seq<NodeView> {
    if namespace.metadata.name is None {
        forest
    } else {
        let i = root_index(forest, namespace.metadata.name, 0);
        if i < forest.len() {
            forest.update(
                i,
                NodeView { relatives: forest[i].relatives, ..namespace_node(namespace) },
            )
        } else {
            populate(
                forest.push(namespace_node(namespace)),
                namespace.metadata.name,
                routes,
                services,
                pods,
            )
        }
    }
}

/// Brings the forest in line with a namespace that was created or changed,
/// given the routes, services and pods that are known.
pub fn update_namespace_relationships(
    hierarchy: &mut Vec<HierarchyNode>,
    namespace: &Namespace,
    routes: &[HTTPRoute],
    services: &[Service],
    pods: &[Pod],
)
    ensures
        final(hierarchy).deep_view() == apply_namespace(
            old(hierarchy).deep_view(),
            namespace.deep_view(),
            routes.deep_view(),
            services.deep_view(),
            pods.deep_view(),
        ),
{
    if namespace.metadata.name.is_none() {
        return;
    }
    let name = opt_as_str(&namespace.metadata.name);
    let ghost before = hierarchy.deep_view();
    let i = find_root(hierarchy, name);
    if i < hierarchy.len() {
        let mut root = new_namespace(namespace);
        proof {
            lemma_relatives_view(hierarchy@[i as int]);
        }
        std::mem::swap(&mut root.relatives, &mut hierarchy[i].relatives);
        proof {
            lemma_relatives_view(root);
        }
        hierarchy[i] = root;
    } else {
        hierarchy.push(new_namespace(namespace));
        assert(hierarchy.deep_view() =~= before.push(namespace_node(namespace.deep_view())));
        fill(hierarchy, name, routes, services, pods);
    }
}

/// The first `k` roots, less the roots of the namespace called `name`.
pub open spec fn roots_without(forest: Seq<NodeView>, k: nat, name: Seq<char>) -> Seq<NodeView>
    decreases k,
{
    if k == 0 || k > forest.len() {
        Seq::empty()
    } else {
        let rest = roots_without(forest, (k - 1) as nat, name);
        if forest[k - 1].kind == ResourceKind::Namespace && forest[k - 1].name == name {
            rest
        } else {
            rest.push(forest[k - 1])
        }
    }
}

/// The forest after a namespace was deleted: its root is gone, with all
/// that stood under it. A namespace without a name changes nothing.
pub open spec fn remove_namespace(forest: Seq<NodeView>, namespace: NamespaceView) -> Seq<NodeView> {
    match namespace.metadata.name {
        Some(name) => roots_without(forest, forest.len(), name),
        None => forest,
    }
}

/// Brings the forest in line with a namespace that was deleted.
pub fn delete_namespace(hierarchy: &mut Vec<HierarchyNode>, namespace: &Namespace)
    ensures
        final(hierarchy).deep_view() == remove_namespace(
            old(hierarchy).deep_view(),
            namespace.deep_view(),
        ),
{
    let Some(name) = &namespace.metadata.name else {
        return;
    };
    let ghost before = hierarchy.deep_view();
    let mut roots: Vec<HierarchyNode> = Vec::new();
    std::mem::swap(hierarchy, &mut roots);
    for root in it: roots.into_iter()
        invariant
            it.seq() == roots@,
            before == roots.deep_view(),
            hierarchy.deep_view() == roots_without(before, it.index() as nat, name@),
    {
        if !(root.kind == ResourceKind::Namespace && str_eq(root.name.as_str(), name.as_str())) {
            hierarchy.push(root);
        }
    }
}

// ---------------------------------------------------------------------------
// Deleting pods, services and routes

/// The forest after an object other than a namespace was deleted: it is
/// taken out wherever it stands, with all under it. What stood under it
/// does not move elsewhere. An object that lacks a name or a namespace
/// changes nothing.
pub open spec fn remove_object(
    forest: Seq<NodeView>,
    kind: ResourceKind,
    metadata: ObjectMetaView,
) -> Seq<NodeView> {
    if identified(metadata) {
        forest_without(forest, ref_of(kind, metadata))
    } else {
        forest
    }
}

/// Takes the object that `metadata` identifies out of the forest.
pub fn delete_object(hierarchy: &mut Vec<HierarchyNode>, kind: ResourceKind, metadata: &ObjectMeta)
    ensures
        final(hierarchy).deep_view() == remove_object(
            old(hierarchy).deep_view(),
            kind,
            metadata.deep_view(),
        ),
{
    if has_identity(metadata) {
        detach(hierarchy, kind, text_of(&metadata.name), opt_as_str(&metadata.namespace));
    }
}

/// Brings the forest in line with a pod that was deleted.
pub fn delete_pod(hierarchy: &mut Vec<HierarchyNode>, pod: &Pod)
    ensures
        final(hierarchy).deep_view() == remove_object(
            old(hierarchy).deep_view(),
            ResourceKind::Pod,
            pod.deep_view().metadata,
        ),
{
    delete_object(hierarchy, ResourceKind::Pod, &pod.metadata);
}

/// Brings the forest in line with a service that was deleted. The pods that
/// stood under it leave the forest with it.
pub fn delete_service(hierarchy: &mut Vec<HierarchyNode>, service: &Service)
    ensures
        final(hierarchy).deep_view() == remove_object(
            old(hierarchy).deep_view(),
            ResourceKind::Service,
            service.deep_view().metadata,
        ),
{
    delete_object(hierarchy, ResourceKind::Service, &service.metadata);
}

/// Brings the forest in line with a route that was deleted. The services
/// that stood under it leave the forest with it.
pub fn delete_httproute(hierarchy: &mut Vec<HierarchyNode>, httproute: &HTTPRoute)
    ensures
        final(hierarchy).deep_view() == remove_object(
            old(hierarchy).deep_view(),
            ResourceKind::HTTPRoute,
            httproute.deep_view().metadata,
        ),
{
    delete_object(hierarchy, ResourceKind::HTTPRoute, &httproute.metadata);
}

// ---------------------------------------------------------------------------
// The first forest

/// The forest with a root added for the namespace, unless the namespace has
/// no name or has a root already.
pub open spec fn add_root(forest: Seq<NodeView>, namespace: NamespaceView) -> Seq<NodeView> {
    if namespace.metadata.name is Some && root_index(forest, namespace.metadata.name, 0)
        >= forest.len() {
        forest.push(namespace_node(namespace))
    } else {
        forest
    }
}

/// The roots for the first `k` namespaces.
pub open spec fn roots_for(namespaces: Seq<NamespaceView>, k: nat) -> Seq<NodeView>
    decreases k,
{
    if k == 0 || k > namespaces.len() {
        Seq::empty()
    } else {
        add_root(roots_for(namespaces, (k - 1) as nat), namespaces[k - 1])
    }
}

/// The forest that stands for everything known at the start: a root for
/// each known namespace and no other, and under them the routes, the
/// services and the pods that live in a known namespace, each put in as if
/// it had just been applied.
pub open spec fn initial_forest(
    namespaces: Seq<NamespaceView>,
    routes: Seq<HTTPRouteView>,
    services: Seq<ServiceView>,
    pods: Seq<PodView>,
) -> Seq<NodeView> {
    populate(roots_for(namespaces, namespaces.len()), None, routes, services, pods)
}

/// Builds the forest from everything known at the start.
pub fn build_initial_relationships(
    namespaces: &[Namespace],
    routes: &[HTTPRoute],
    services: &[Service],
    pods: &[Pod],
) -> (hierarchy: Vec<HierarchyNode>)
    ensures
        hierarchy.deep_view() == initial_forest(
            namespaces.deep_view(),
            routes.deep_view(),
            services.deep_view(),
            pods.deep_view(),
        ),
        same_tops(
            roots_for(namespaces.deep_view(), namespaces.deep_view().len()),
            hierarchy.deep_view(),
        ),
{
    proof {
        law_initial_forest_roots(
            namespaces.deep_view(),
            routes.deep_view(),
            services.deep_view(),
            pods.deep_view(),
        );
    }
    let mut hierarchy: Vec<HierarchyNode> = Vec::new();
    let ghost nv = namespaces.deep_view();
    let mut k: usize = 0;
    while k < namespaces.len()
        invariant
            k <= namespaces@.len(),
            nv == namespaces.deep_view(),
            hierarchy.deep_view() == roots_for(nv, k as nat),
        decreases namespaces.len() - k,
    {
        let namespace = &namespaces[k];
        if namespace.metadata.name.is_some() {
            let i = find_root(&hierarchy, opt_as_str(&namespace.metadata.name));
            if i >= hierarchy.len() {
                hierarchy.push(new_namespace(namespace));
            }
        }
        k += 1;
    }
    fill(&mut hierarchy, None, routes, services, pods);
    hierarchy
}

} // verus!
