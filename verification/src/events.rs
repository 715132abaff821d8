//! What each watched kind's feed of notifications does to the forest.
//!
//! A feed hands over one event at a time, together with what is known of the
//! other kinds at that moment. Each function here takes one event, changes
//! the forest accordingly and says whether the change is to be published.

use crate::node::{HierarchyNode, NodeView, ResourceKind};
use crate::objects::{
    HTTPRoute, HTTPRouteView, Namespace, NamespaceView, Pod, PodView, Service, ServiceView,
};
use crate::reconcile::{
    apply_namespace, apply_pod, apply_route, apply_service, delete_httproute, delete_namespace,
    delete_pod, delete_service, remove_namespace, remove_object, update_httproute_relationships,
    update_namespace_relationships, update_pod_relationships, update_service_relationships,
};
use crate::tree::{has_identity, identified};
use vstd::prelude::*;

verus! {

/// One event of a feed. `Apply` says that an object was created or changed,
/// `Delete` that it is gone; the other three belong to the first listing of
/// a feed, which the forest takes from the caches as a whole.
#[derive(Debug, PartialEq, Eq)]
pub enum WatchEvent<T> {
    Apply(T),
    Delete(T),
    Init,
    InitApply(T),
    InitDone,
}

impl<T: DeepView> DeepView for WatchEvent<T> {
    type V = WatchEvent<T::V>;

    open spec fn deep_view(&self) -> WatchEvent<T::V> {
        match self {
            WatchEvent::Apply(o) => WatchEvent::Apply(o.deep_view()),
            WatchEvent::Delete(o) => WatchEvent::Delete(o.deep_view()),
            WatchEvent::Init => WatchEvent::Init,
            WatchEvent::InitApply(o) => WatchEvent::InitApply(o.deep_view()),
            WatchEvent::InitDone => WatchEvent::InitDone,
        }
    }
}

/// The forest after an event of the pod feed.
pub open spec fn after_pod_event(forest: Seq<NodeView>, event: WatchEvent<PodView>) -> Seq<NodeView> {
    match event {
        WatchEvent::Apply(pod) => apply_pod(forest, pod),
        WatchEvent::Delete(pod) => remove_object(forest, ResourceKind::Pod, pod.metadata),
        _ => forest,
    }
}

/// Whether an event of the pod feed leads to a publication: it applies or
/// deletes a pod that has a name and a namespace.
pub open spec fn pod_event_publishes(event: WatchEvent<PodView>) -> bool {
    match event {
        WatchEvent::Apply(pod) => identified(pod.metadata),
        WatchEvent::Delete(pod) => identified(pod.metadata),
        _ => false,
    }
}

/// Takes one event of the pod feed. Returns whether to publish the forest.
pub fn handle_pod_event(hierarchy: &mut Vec<HierarchyNode>, event: &WatchEvent<Pod>) -> (publish:
    bool)
    ensures
        final(hierarchy).deep_view() == after_pod_event(
            old(hierarchy).deep_view(),
            event.deep_view(),
        ),
        publish == pod_event_publishes(event.deep_view()),
{
    match event {
        WatchEvent::Apply(pod) => {
            update_pod_relationships(hierarchy, pod);
            has_identity(&pod.metadata)
        },
        WatchEvent::Delete(pod) => {
            delete_pod(hierarchy, pod);
            has_identity(&pod.metadata)
        },
        _ => false,
    }
}

/// The forest after an event of the service feed, given the pods known.
pub open spec fn after_service_event(
    forest: Seq<NodeView>,
    event: WatchEvent<ServiceView>,
    pods: Seq<PodView>,
) -> Seq<NodeView> {
    match event {
        WatchEvent::Apply(service) => apply_service(forest, service, pods),
        WatchEvent::Delete(service) => remove_object(
            forest,
            ResourceKind::Service,
            service.metadata,
        ),
        _ => forest,
    }
}

/// Whether an event of the service feed leads to a publication.
pub open spec fn service_event_publishes(event: WatchEvent<ServiceView>) -> bool {
    match event {
        WatchEvent::Apply(service) => identified(service.metadata),
        WatchEvent::Delete(service) => identified(service.metadata),
        _ => false,
    }
}

/// Takes one event of the service feed. Returns whether to publish the
/// forest.
pub fn handle_service_event(
    hierarchy: &mut Vec<HierarchyNode>,
    event: &WatchEvent<Service>,
    pods: &[Pod],
) -> (publish: bool)
    ensures
        final(hierarchy).deep_view() == after_service_event(
            old(hierarchy).deep_view(),
            event.deep_view(),
            pods.deep_view(),
        ),
        publish == service_event_publishes(event.deep_view()),
{
    match event {
        WatchEvent::Apply(service) => {
            update_service_relationships(hierarchy, service, pods);
            has_identity(&service.metadata)
        },
        WatchEvent::Delete(service) => {
            delete_service(hierarchy, service);
            has_identity(&service.metadata)
        },
        _ => false,
    }
}

/// The forest after an event of the route feed, given the services and pods
/// known.
pub open spec fn after_httproute_event(
    forest: Seq<NodeView>,
    event: WatchEvent<HTTPRouteView>,
    services: Seq<ServiceView>,
    pods: Seq<PodView>,
) -> Seq<NodeView> {
    match event {
        WatchEvent::Apply(route) => apply_route(forest, route, services, pods),
        WatchEvent::Delete(route) => remove_object(
            forest,
            ResourceKind::HTTPRoute,
            route.metadata,
        ),
        _ => forest,
    }
}

/// Whether an event of the route feed leads to a publication.
pub open spec fn httproute_event_publishes(event: WatchEvent<HTTPRouteView>) -> bool {
    match event {
        WatchEvent::Apply(route) => identified(route.metadata),
        WatchEvent::Delete(route) => identified(route.metadata),
        _ => false,
    }
}

/// Takes one event of the route feed. Returns whether to publish the forest.
pub fn handle_httproute_event(
    hierarchy: &mut Vec<HierarchyNode>,
    event: &WatchEvent<HTTPRoute>,
    services: &[Service],
    pods: &[Pod],
) -> (publish: bool)
    ensures
        final(hierarchy).deep_view() == after_httproute_event(
            old(hierarchy).deep_view(),
            event.deep_view(),
            services.deep_view(),
            pods.deep_view(),
        ),
        publish == httproute_event_publishes(event.deep_view()),
{
    match event {
        WatchEvent::Apply(route) => {
            update_httproute_relationships(hierarchy, route, services, pods);
            has_identity(&route.metadata)
        },
        WatchEvent::Delete(route) => {
            delete_httproute(hierarchy, route);
            has_identity(&route.metadata)
        },
        _ => false,
    }
}

/// The forest after an event of the namespace feed, given the routes,
/// services and pods known.
pub open spec fn after_namespace_event(
    forest: Seq<NodeView>,
    event: WatchEvent<NamespaceView>,
    routes: Seq<HTTPRouteView>,
    services: Seq<ServiceView>,
    pods: Seq<PodView>,
) -> Seq<NodeView> {
    match event {
        WatchEvent::Apply(namespace) => apply_namespace(forest, namespace, routes, services, pods),
        WatchEvent::Delete(namespace) => remove_namespace(forest, namespace),
        _ => forest,
    }
}

/// Whether an event of the namespace feed leads to a publication: it applies
/// or deletes a namespace that has a name.
pub open spec fn namespace_event_publishes(event: WatchEvent<NamespaceView>) -> bool {
    match event {
        WatchEvent::Apply(namespace) => namespace.metadata.name is Some,
        WatchEvent::Delete(namespace) => namespace.metadata.name is Some,
        _ => false,
    }
}

/// Takes one event of the namespace feed. Returns whether to publish the
/// forest.
pub fn handle_namespace_event(
    hierarchy: &mut Vec<HierarchyNode>,
    event: &WatchEvent<Namespace>,
    routes: &[HTTPRoute],
    services: &[Service],
    pods: &[Pod],
) -> (publish: bool)
    ensures
        final(hierarchy).deep_view() == after_namespace_event(
            old(hierarchy).deep_view(),
            event.deep_view(),
            routes.deep_view(),
            services.deep_view(),
            pods.deep_view(),
        ),
        publish == namespace_event_publishes(event.deep_view()),
{
    match event {
        WatchEvent::Apply(namespace) => {
            update_namespace_relationships(hierarchy, namespace, routes, services, pods);
            namespace.metadata.name.is_some()
        },
        WatchEvent::Delete(namespace) => {
            delete_namespace(hierarchy, namespace);
            namespace.metadata.name.is_some()
        },
        _ => false,
    }
}

} // verus!
