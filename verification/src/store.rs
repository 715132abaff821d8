//! The store: the forest, what changes it, and what it hands to readers.
//!
//! The store is a plain value. Whoever shares it between writers and readers
//! guards it with a lock, so that each notification is taken as a whole and
//! no reader sees a forest that is half changed.

use crate::events::{
    WatchEvent, after_httproute_event, after_namespace_event, after_pod_event, after_service_event,
    handle_httproute_event, handle_namespace_event, handle_pod_event, handle_service_event,
    httproute_event_publishes, namespace_event_publishes, pod_event_publishes,
    service_event_publishes,
};
use crate::node::{HierarchyNode, NodeView};
use crate::objects::{HTTPRoute, Namespace, Pod, Service};
use crate::publish::{current_tree, is_ready, sorted_by_name};
use crate::reconcile::{build_initial_relationships, initial_forest, roots_for};
use crate::uniqueness::same_tops;
use vstd::prelude::*;

verus! {

/// The forest of the cluster: a root for each namespace, and under the
/// roots the routes, services and pods.
#[derive(Debug, PartialEq, Eq)]
pub struct State {
    pub hierarchy: Vec<HierarchyNode>,
}

impl DeepView for State {
    type V = Seq<NodeView>;

    open spec fn deep_view(&self) -> Seq<NodeView> {
        self.hierarchy.deep_view()
    }
}

impl Default for State {
    fn default() -> (state: Self)
        ensures
            state.deep_view() == Seq::<NodeView>::empty(),
    {
        State::new()
    }
}

impl Clone for State {
    fn clone(&self) -> (state: Self)
        ensures
            state.deep_view() == self.deep_view(),
    {
        State { hierarchy: crate::publish::clone_forest(&self.hierarchy) }
    }
}

/// What is published after a notification: the forest in the order of
/// names where the notification changed it, else nothing.
pub open spec fn publication(publish: bool, forest: Seq<NodeView>) -> Option<Seq<NodeView>> {
    if publish {
        Some(sorted_by_name(forest))
    } else {
        None
    }
}

impl State {
    /// The empty forest, as it is before anything is known.
    pub fn new() -> (state: Self)
        ensures
            state.deep_view() == Seq::<NodeView>::empty(),
    {
        let state = State { hierarchy: Vec::new() };
        state
    }

    /// Replaces the forest by the one that stands for everything known at
    /// the start.
    pub fn load(
        &mut self,
        namespaces: &[Namespace],
        routes: &[HTTPRoute],
        services: &[Service],
        pods: &[Pod],
    )
        ensures
            final(self).deep_view() == initial_forest(
                namespaces.deep_view(),
                routes.deep_view(),
                services.deep_view(),
                pods.deep_view(),
            ),
            same_tops(
                roots_for(namespaces.deep_view(), namespaces.deep_view().len()),
                final(self).deep_view(),
            ),
    {
        self.hierarchy = build_initial_relationships(namespaces, routes, services, pods);
    }

    /// The forest as readers see it: a copy with the roots in the order of
    /// their names.
    pub fn current_tree(&self) -> (tree: Vec<HierarchyNode>)
        ensures
            tree.deep_view() == sorted_by_name(self.deep_view()),
    {
        current_tree(&self.hierarchy)
    }

    /// Whether the forest is ready to be served: it has at least one root.
    pub fn is_ready(&self) -> (ready: bool)
        ensures
            ready == (self.deep_view().len() > 0),
    {
        is_ready(&self.hierarchy)
    }

    fn published(&self, publish: bool) -> (out: Option<Vec<HierarchyNode>>)
        ensures
            out.deep_view() == publication(publish, self.deep_view()),
    {
        if publish {
            Some(self.current_tree())
        } else {
            None
        }
    }

    /// Takes one event of the pod feed and returns what to publish.
    pub fn on_pod_event(&mut self, event: &WatchEvent<Pod>) -> (out: Option<Vec<HierarchyNode>>)
        ensures
            final(self).deep_view() == after_pod_event(old(self).deep_view(), event.deep_view()),
            out.deep_view() == publication(
                pod_event_publishes(event.deep_view()),
                final(self).deep_view(),
            ),
    {
        let publish = handle_pod_event(&mut self.hierarchy, event);
        self.published(publish)
    }

    /// Takes one event of the service feed, given the pods known, and
    /// returns what to publish.
    pub fn on_service_event(&mut self, event: &WatchEvent<Service>, pods: &[Pod]) -> (out: Option<
        Vec<HierarchyNode>,
    >)
        ensures
            final(self).deep_view() == after_service_event(
                old(self).deep_view(),
                event.deep_view(),
                pods.deep_view(),
            ),
            out.deep_view() == publication(
                service_event_publishes(event.deep_view()),
                final(self).deep_view(),
            ),
    {
        let publish = handle_service_event(&mut self.hierarchy, event, pods);
        self.published(publish)
    }

    /// Takes one event of the route feed, given the services and pods
    /// known, and returns what to publish.
    pub fn on_httproute_event(
        &mut self,
        event: &WatchEvent<HTTPRoute>,
        services: &[Service],
        pods: &[Pod],
    ) -> (out: Option<Vec<HierarchyNode>>)
        ensures
            final(self).deep_view() == after_httproute_event(
                old(self).deep_view(),
                event.deep_view(),
                services.deep_view(),
                pods.deep_view(),
            ),
            out.deep_view() == publication(
                httproute_event_publishes(event.deep_view()),
                final(self).deep_view(),
            ),
    {
        let publish = handle_httproute_event(&mut self.hierarchy, event, services, pods);
        self.published(publish)
    }

    /// Takes one event of the namespace feed, given the routes, services
    /// and pods known, and returns what to publish.
    pub fn on_namespace_event(
        &mut self,
        event: &WatchEvent<Namespace>,
        routes: &[HTTPRoute],
        services: &[Service],
        pods: &[Pod],
    ) -> (out: Option<Vec<HierarchyNode>>)
        ensures
            final(self).deep_view() == after_namespace_event(
                old(self).deep_view(),
                event.deep_view(),
                routes.deep_view(),
                services.deep_view(),
                pods.deep_view(),
            ),
            out.deep_view() == publication(
                namespace_event_publishes(event.deep_view()),
                final(self).deep_view(),
            ),
    {
        let publish = handle_namespace_event(&mut self.hierarchy, event, routes, services, pods);
        self.published(publish)
    }
}

} // verus!
