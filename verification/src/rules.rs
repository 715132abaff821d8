//! The two rules by which one object comes to stand under another: a service
//! selects pods by their labels, and a route refers to services by name.
//! Both hold within one namespace only.

use crate::labels::{Labels, selectors_match};
use crate::metadata::{contains_text, service_backend_names, service_backends};
use crate::node::{
    HierarchyNode, NodeView, ResourceKind, ResourceSpec, ResourceSpecView, text_or_empty,
};
use crate::objects::{
    HTTPRoute, HTTPRouteSpec, HTTPRouteSpecView, HTTPRouteView, ObjectMetaView, Pod, PodView,
    Service, ServiceView,
};
use crate::text::{opt_as_str, opt_str_eq};
use vstd::prelude::*;

verus! {

/// The labels of an object; none where it has none.
pub open spec fn labels_of(metadata: ObjectMetaView) -> Map<Seq<char>, Seq<char>> {
    match metadata.labels {
        Some(labels) => labels,
        None => Map::empty(),
    }
}

/// Whether a selector picks out an object with the given labels: the
/// selector has at least one pair, and the labels hold every pair of it.
pub open spec fn selects(
    selector: Option<Map<Seq<char>, Seq<char>>>,
    labels: Map<Seq<char>, Seq<char>>,
) -> bool {
    match selector {
        Some(pairs) => !(pairs.dom() =~= Set::<Seq<char>>::empty()) && pairs.submap_of(labels),
        None => false,
    }
}

/// Whether a selector picks out an object with the given labels.
pub fn selector_selects(selector: &Option<Labels>, labels: &Labels) -> (r: bool)
    ensures
        r == selects(selector.deep_view(), labels@),
{
    match selector {
        Some(pairs) => selectors_match(pairs, labels),
        None => false,
    }
}

/// The selector of a service.
pub open spec fn selector_of(service: ServiceView) -> Option<Map<Seq<char>, Seq<char>>> {
    match service.spec {
        Some(spec) => spec.selector,
        None => None,
    }
}

/// Whether a service selects a pod: both live in the same namespace, and the
/// selector of the service picks out the labels of the pod.
pub open spec fn service_selects_pod(service: ServiceView, pod: PodView) -> bool {
    service.metadata.namespace == pod.metadata.namespace && selects(
        selector_of(service),
        labels_of(pod.metadata),
    )
}

/// Whether a service selects a pod.
pub fn service_selects(service: &Service, pod: &Pod) -> (r: bool)
    ensures
        r == service_selects_pod(service.deep_view(), pod.deep_view()),
{
    if !opt_str_eq(opt_as_str(&service.metadata.namespace), opt_as_str(&pod.metadata.namespace)) {
        return false;
    }
    let empty = Labels::new();
    let labels = match &pod.metadata.labels {
        Some(l) => l,
        None => &empty,
    };
    match &service.spec {
        Some(spec) => selector_selects(&spec.selector, labels),
        None => false,
    }
}

/// Whether a node of the tree is a service that selects an object of the
/// given namespace and labels, going by the description that the node holds.
pub open spec fn node_selects(
    node: NodeView,
    namespace: Option<Seq<char>>,
    labels: Map<Seq<char>, Seq<char>>,
) -> bool {
    node.kind == ResourceKind::Service && node.metadata.namespace == namespace && match node.spec {
        Some(ResourceSpecView::Service(spec)) => selects(spec.selector, labels),
        _ => false,
    }
}

/// Whether a node of the tree is a service that selects an object of the
/// given namespace and labels.
pub fn service_node_selects(node: &HierarchyNode, namespace: Option<&str>, labels: &Labels) -> (r:
    bool)
    ensures
        r == node_selects(node.deep_view(), namespace.deep_view(), labels@),
{
    if node.kind != ResourceKind::Service {
        return false;
    }
    if !opt_str_eq(opt_as_str(&node.metadata.namespace), namespace) {
        return false;
    }
    match &node.spec {
        Some(ResourceSpec::Service(spec)) => selector_selects(&spec.selector, labels),
        _ => false,
    }
}

/// Whether a route description refers to a service of the given name: one of
/// its backend references declares a service as its target and names it.
pub open spec fn references(spec: HTTPRouteSpecView, name: Seq<char>) -> bool {
    service_backends(spec).contains(name)
}

/// Whether a route description refers to a service of the given name.
pub fn spec_references(spec: &HTTPRouteSpec, name: &str) -> (r: bool)
    ensures
        r == references(spec.deep_view(), name@),
{
    let names = service_backend_names(spec);
    contains_text(&names, name)
}

/// Whether a route refers to a service: both live in the same namespace, and
/// the route refers to a service of that name.
pub open spec fn route_references_service(route: HTTPRouteView, service: ServiceView) -> bool {
    route.metadata.namespace == service.metadata.namespace && references(
        route.spec,
        text_or_empty(service.metadata.name),
    )
}

/// Whether a route refers to a service.
pub fn route_references(route: &HTTPRoute, service: &Service) -> (r: bool)
    ensures
        r == route_references_service(route.deep_view(), service.deep_view()),
{
    if !opt_str_eq(opt_as_str(&route.metadata.namespace), opt_as_str(&service.metadata.namespace)) {
        return false;
    }
    match &service.metadata.name {
        Some(name) => spec_references(&route.spec, name.as_str()),
        None => {
            proof {
                reveal_strlit("");
                assert(""@ =~= Seq::<char>::empty());
            }
            spec_references(&route.spec, "")
        },
    }
}

/// Whether a node of the tree is a route that refers to a service of the
/// given name, going by the description that the node holds.
pub open spec fn node_references(node: NodeView, name: Seq<char>) -> bool {
    node.kind == ResourceKind::HTTPRoute && match node.spec {
        Some(ResourceSpecView::HTTPRoute(spec)) => references(spec, name),
        _ => false,
    }
}

/// Whether a node of the tree is a route that refers to a service of the
/// given name.
pub fn route_node_references(node: &HierarchyNode, name: &str) -> (r: bool)
    ensures
        r == node_references(node.deep_view(), name@),
{
    if node.kind != ResourceKind::HTTPRoute {
        return false;
    }
    match &node.spec {
        Some(ResourceSpec::HTTPRoute(spec)) => spec_references(spec, name),
        _ => false,
    }
}

} // verus!
