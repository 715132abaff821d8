//! What stands under a route once it was applied: the services it refers
//! to, in the order they are known in, each with the pods it selects.

use crate::counting::{
    count_list, lemma_count_list_prefix, lemma_without_clears, lemma_without_list_absent, weight,
};
use crate::idempotence::{applies, same_top};
use crate::node::{NodeView, ResourceKind, route_node, text_or_empty};
use crate::objects::{HTTPRouteView, PodView, ServiceView};
use crate::placement::{
    child_like, has_child, lemma_child_like_without, lemma_count_list_parts, lemma_referenced_found,
    lemma_without_list_origin, lemma_without_selected_child,
};
use crate::reconcile::{
    apply_referenced, apply_route, apply_service, place_service, service_subtree, with_child,
    without_selected,
};
use crate::rules::{node_references, service_selects_pod};
use crate::tree::{ObjectRef, forest_without, identified, node_is, ref_of, root_index, without};
use crate::uniqueness::{
    lemma_picks_witness, lemma_root_index_bounds, lemma_root_replaced, lemma_same_tops_index,
    lemma_subtree_weight, lemma_without_selected_tops, lemma_without_tops, picks,
};
use vstd::prelude::*;

verus! {

/// The nodes of those of the first `k` services that are applied with the
/// route, in their order, each with the pods it selects under it.
pub open spec fn referred(
    route: HTTPRouteView,
    services: Seq<ServiceView>,
    k: nat,
    pods: Seq<PodView>,
) -> Seq<NodeView>
    decreases k,
{
    if k == 0 || k > services.len() {
        Seq::empty()
    } else {
        let rest = referred(route, services, (k - 1) as nat, pods);
        if applies(route, services, k - 1) {
            rest.push(service_subtree(services[k - 1], pods))
        } else {
            rest
        }
    }
}

/// Whether the services applied with the route stand apart: no two of them
/// are the same object, and no pod is selected by two of them.
pub open spec fn apart(route: HTTPRouteView, services: Seq<ServiceView>, pods: Seq<PodView>) -> bool {
    &&& forall|i: int, j: int|
        0 <= i < j < services.len() && applies(route, services, i) && applies(route, services, j)
            ==> ref_of(ResourceKind::Service, (#[trigger] services[i]).metadata) != ref_of(
            ResourceKind::Service,
            (#[trigger] services[j]).metadata,
        )
    &&& forall|i: int, j: int, p: int, q: int|
        0 <= i < services.len() && 0 <= j < services.len() && i != j && applies(route, services, i)
            && applies(route, services, j) && 0 <= p < pods.len() && 0 <= q < pods.len()
            && #[trigger] service_selects_pod(services[i], pods[p])
            && #[trigger] service_selects_pod(services[j], pods[q]) ==> ref_of(
            ResourceKind::Pod,
            pods[p].metadata,
        ) != ref_of(ResourceKind::Pod, pods[q].metadata)
}

/// Whether every node for the object `a` directly under `root` has exactly
/// the nodes of `list` under it.
pub open spec fn child_lists(root: NodeView, a: ObjectRef, list: Seq<NodeView>) -> bool {
    forall|j: int|
        0 <= j < root.relatives.len() && node_is(#[trigger] root.relatives[j], a)
            ==> root.relatives[j].relatives == list
}

/// Taking out an object that has no node in the list, from under a root,
/// leaves the list under the nodes for another object.
pub proof fn lemma_child_lists_without(
    root: NodeView,
    gone: ObjectRef,
    a: ObjectRef,
    list: Seq<NodeView>,
)
    requires
        child_lists(root, a, list),
        count_list(list, list.len(), gone, false) == 0,
    ensures
        child_lists(without(root, gone), a, list),
{
    let kept = without(root, gone);
    let below = root.relatives;
    assert forall|m: int|
        0 <= m < kept.relatives.len() && node_is(#[trigger] kept.relatives[m], a) implies kept.relatives[m].relatives
        == list by {
        lemma_without_list_origin(below, below.len(), gone, m);
        lemma_without_list_absent(list, list.len(), gone);
    }
}

/// Taking the pods that a service selects out, where none of them has a
/// node in the list, leaves the list under the nodes for the object.
pub proof fn lemma_child_lists_without_selected(
    forest: Seq<NodeView>,
    service: ServiceView,
    pods: Seq<PodView>,
    k: nat,
    i: int,
    a: ObjectRef,
    list: Seq<NodeView>,
)
    requires
        k <= pods.len(),
        0 <= i < forest.len(),
        child_lists(forest[i], a, list),
        forall|p: int|
            0 <= p < pods.len() && service_selects_pod(service, pods[p]) ==> count_list(
                list,
                list.len(),
                ref_of(ResourceKind::Pod, #[trigger] pods[p].metadata),
                false,
            ) == 0,
    ensures
        without_selected(forest, service, pods, k).len() == forest.len(),
        child_lists(without_selected(forest, service, pods, k)[i], a, list),
    decreases k,
{
    if k > 0 {
        lemma_child_lists_without_selected(forest, service, pods, (k - 1) as nat, i, a, list);
        let rest = without_selected(forest, service, pods, (k - 1) as nat);
        if service_selects_pod(service, pods[k - 1]) {
            let gone = ref_of(ResourceKind::Pod, pods[k - 1].metadata);
            lemma_child_lists_without(rest[i], gone, a, list);
        }
    }
}

/// Putting a service under a root whose nodes for the object `a` are routes
/// that refer to it adds the node of the service, as the last, to what
/// stands under each of them.
pub proof fn lemma_child_lists_place(
    root: NodeView,
    node: NodeView,
    name: Seq<char>,
    a: ObjectRef,
    like: NodeView,
    list: Seq<NodeView>,
)
    requires
        child_like(root, a, like),
        node_references(like, name),
        child_lists(root, a, list),
    ensures
        child_lists(place_service(root, node, name), a, list.push(node)),
{
    let below = root.relatives;
    let put = place_service(root, node, name);
    let j = choose|j: int| 0 <= j < below.len() && node_is(#[trigger] below[j], a);
    lemma_referenced_found(below, below.len(), name, j);
    assert forall|m: int|
        0 <= m < put.relatives.len() && node_is(#[trigger] put.relatives[m], a) implies put.relatives[m].relatives
        == list.push(node) by {}
}

/// What a list of service nodes holds of an object that none of the
/// services is, and none of their pods: nothing.
pub proof fn lemma_referred_absent(
    route: HTTPRouteView,
    services: Seq<ServiceView>,
    k: nat,
    pods: Seq<PodView>,
    q: ObjectRef,
)
    requires
        k <= services.len(),
        forall|j: int|
            0 <= j < k && applies(route, services, j) ==> weight(
                service_subtree(#[trigger] services[j], pods),
                q,
                false,
            ) == 0,
    ensures
        count_list(
            referred(route, services, k, pods),
            referred(route, services, k, pods).len(),
            q,
            false,
        ) == 0,
    decreases k,
{
    if k > 0 {
        lemma_referred_absent(route, services, (k - 1) as nat, pods, q);
        let rest = referred(route, services, (k - 1) as nat, pods);
        if applies(route, services, k - 1) {
            let node = service_subtree(services[k - 1], pods);
            lemma_count_list_prefix(rest.push(node), rest, rest.len(), q, false);
        }
    }
}

/// What applying a service that the route refers to does to what stands
/// under the route: the node of the service joins it as the last.
pub proof fn lemma_apply_service_list(
    forest: Seq<NodeView>,
    service: ServiceView,
    pods: Seq<PodView>,
    i: int,
    a: ObjectRef,
    like: NodeView,
    list: Seq<NodeView>,
)
    requires
        identified(service.metadata),
        0 <= i < forest.len(),
        root_index(forest, service.metadata.namespace, 0) == i,
        a.kind == ResourceKind::HTTPRoute,
        child_like(forest[i], a, like),
        node_references(like, text_or_empty(service.metadata.name)),
        child_lists(forest[i], a, list),
        count_list(list, list.len(), ref_of(ResourceKind::Service, service.metadata), false) == 0,
        forall|p: int|
            0 <= p < pods.len() && service_selects_pod(service, pods[p]) ==> count_list(
                list,
                list.len(),
                ref_of(ResourceKind::Pod, #[trigger] pods[p].metadata),
                false,
            ) == 0,
    ensures
        ({
            let after = apply_service(forest, service, pods);
            &&& after.len() == forest.len()
            &&& root_index(after, service.metadata.namespace, 0) == i
            &&& child_like(after[i], a, like)
            &&& child_lists(after[i], a, list.push(service_subtree(service, pods)))
        }),
{
    let r = ref_of(ResourceKind::Service, service.metadata);
    let b = r;
    let namespace = service.metadata.namespace;
    let name = text_or_empty(service.metadata.name);
    let removed = forest_without(forest, r);
    let cleared = without_selected(removed, service, pods, pods.len());
    let node = service_subtree(service, pods);
    lemma_child_like_without(forest[i], r, a, like);
    lemma_child_lists_without(forest[i], r, a, list);
    lemma_without_selected_child(removed, service, pods, pods.len(), i, a, b, like);
    lemma_child_lists_without_selected(removed, service, pods, pods.len(), i, a, list);
    lemma_without_tops(forest, r);
    lemma_without_selected_tops(removed, service, pods, pods.len());
    lemma_same_tops_index(forest, removed, namespace, 0);
    lemma_same_tops_index(removed, cleared, namespace, 0);
    lemma_root_index_bounds(cleared, namespace, 0);
    let put = place_service(cleared[i], node, name);
    lemma_root_replaced(cleared, i, put, namespace, 0);
    crate::placement::lemma_child_holds_place(cleared[i], node, name, a, b, like);
    lemma_child_lists_place(cleared[i], node, name, a, like, list);
}

/// What applying the services that a route refers to does to what stands
/// under the route, where they stand apart: their nodes join it one after
/// the other.
pub proof fn lemma_apply_referenced_list(
    forest: Seq<NodeView>,
    route: HTTPRouteView,
    services: Seq<ServiceView>,
    k: nat,
    pods: Seq<PodView>,
    i: int,
)
    requires
        k <= services.len(),
        identified(route.metadata),
        apart(route, services, pods),
        0 <= i < forest.len(),
        root_index(forest, route.metadata.namespace, 0) == i,
        child_like(forest[i], ref_of(ResourceKind::HTTPRoute, route.metadata), route_node(route)),
        child_lists(forest[i], ref_of(ResourceKind::HTTPRoute, route.metadata), Seq::empty()),
    ensures
        ({
            let after = apply_referenced(forest, route, services, k, pods);
            let a = ref_of(ResourceKind::HTTPRoute, route.metadata);
            &&& after.len() == forest.len()
            &&& root_index(after, route.metadata.namespace, 0) == i
            &&& child_like(after[i], a, route_node(route))
            &&& child_lists(after[i], a, referred(route, services, k, pods))
        }),
    decreases k,
{
    let a = ref_of(ResourceKind::HTTPRoute, route.metadata);
    if k > 0 {
        lemma_apply_referenced_list(forest, route, services, (k - 1) as nat, pods, i);
        let rest = apply_referenced(forest, route, services, (k - 1) as nat, pods);
        let list = referred(route, services, (k - 1) as nat, pods);
        let last = services[k - 1];
        if applies(route, services, k - 1) {
            let r = ref_of(ResourceKind::Service, last.metadata);
            assert forall|j: int| 0 <= j < k - 1 && applies(route, services, j) implies weight(
                service_subtree(#[trigger] services[j], pods),
                r,
                false,
            ) == 0 by {
                lemma_subtree_weight(services[j], pods, r, false);
            }
            lemma_referred_absent(route, services, (k - 1) as nat, pods, r);
            assert forall|p: int|
                0 <= p < pods.len() && service_selects_pod(last, pods[p]) implies count_list(
                list,
                list.len(),
                ref_of(ResourceKind::Pod, #[trigger] pods[p].metadata),
                false,
            ) == 0 by {
                let q = ref_of(ResourceKind::Pod, pods[p].metadata);
                assert forall|j: int| 0 <= j < k - 1 && applies(route, services, j) implies weight(
                    service_subtree(#[trigger] services[j], pods),
                    q,
                    false,
                ) == 0 by {
                    lemma_subtree_weight(services[j], pods, q, false);
                    if picks(services[j], pods, pods.len(), q) > 0 {
                        lemma_picks_witness(services[j], pods, pods.len(), q);
                    }
                }
                lemma_referred_absent(route, services, (k - 1) as nat, pods, q);
            }
            lemma_apply_service_list(rest, last, pods, i, a, route_node(route), list);
        }
    }
}

/// Reference correctness, for what stands under the route applied: once a
/// route was applied whose namespace has a root, under its node stand the
/// nodes of the known services that it refers to, in the order they are
/// known in and no others, each with the nodes of the pods it selects under
/// it. It is taken that the services stand apart: no two of them are the
/// same object, and no pod is selected by two of them.
pub proof fn law_route_relatives(
    forest: Seq<NodeView>,
    route: HTTPRouteView,
    services: Seq<ServiceView>,
    pods: Seq<PodView>,
)
    requires
        identified(route.metadata),
        root_index(forest, route.metadata.namespace, 0) < forest.len(),
        apart(route, services, pods),
    ensures
        ({
            let after = apply_route(forest, route, services, pods);
            let i = root_index(forest, route.metadata.namespace, 0);
            let a = ref_of(ResourceKind::HTTPRoute, route.metadata);
            &&& 0 <= i < after.len()
            &&& has_child(after[i], a)
            &&& child_lists(after[i], a, referred(route, services, services.len(), pods))
        }),
{
    let a = ref_of(ResourceKind::HTTPRoute, route.metadata);
    let namespace = route.metadata.namespace;
    let cleared = forest_without(forest, a);
    lemma_root_index_bounds(forest, namespace, 0);
    lemma_without_tops(forest, a);
    lemma_same_tops_index(forest, cleared, namespace, 0);
    let i = root_index(cleared, namespace, 0);
    let fresh = route_node(route);
    let grown = with_child(cleared[i], fresh);
    let attached = cleared.update(i, grown);
    lemma_root_replaced(cleared, i, grown, namespace, 0);
    lemma_without_clears(forest[i], a, false);
    let below = cleared[i].relatives;
    assert(node_is(grown.relatives[below.len() as int], a));
    assert forall|m: int|
        0 <= m < grown.relatives.len() && node_is(#[trigger] grown.relatives[m], a) implies same_top(
        grown.relatives[m],
        fresh,
    ) && grown.relatives[m].relatives == Seq::<NodeView>::empty() by {
        if m < below.len() {
            lemma_count_list_parts(below, below.len(), a, m);
        }
    }
    lemma_apply_referenced_list(attached, route, services, services.len(), pods, i);
    let after = apply_route(forest, route, services, pods);
    let j = choose|j: int| 0 <= j < after[i].relatives.len() && node_is(
        #[trigger] after[i].relatives[j],
        a,
    );
}

} // verus!
