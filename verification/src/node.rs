//! The nodes of the topology tree.

use crate::metadata::{
    ResourceMetadata, ResourceMetadataView, empty_metadata, extract_load_balancer_ips,
    extract_metadata, extract_resource_metadata, load_balancer_ips, pod_ip_list, pod_ips_of,
    present, present_strings,
};
use crate::objects::{
    HTTPRoute, HTTPRouteSpec, HTTPRouteSpecView, HTTPRouteView, Namespace, NamespaceView,
    ObjectMeta, ObjectMetaView, Pod, PodSpec, PodSpecView, PodView, Service, ServiceSpec,
    ServiceSpecView, ServiceView, clone_opt, clone_opt_string,
};
use vstd::prelude::*;
use vstd::string::*;

verus! {

/// The kinds of cluster object that the topology tracks.
#[derive(Debug, Clone, Copy, PartialEq, Eq, Structural)]
pub enum ResourceKind {
    Namespace,
    Service,
    Pod,
    HTTPRoute,
}

/// The name under which a kind is written, in backend references and on
/// display.
pub open spec fn kind_name(kind: ResourceKind) -> Seq<char> {
    match kind {
        ResourceKind::HTTPRoute => "HTTPRoute"@,
        ResourceKind::Service => "Service"@,
        ResourceKind::Pod => "Pod"@,
        ResourceKind::Namespace => "Namespace"@,
    }
}

impl ResourceKind {
    /// The name of the kind as a string slice.
    pub fn as_str(&self) -> (s: &'static str)
        ensures
            s@ == kind_name(*self),
    {
        match self {
            ResourceKind::HTTPRoute => "HTTPRoute",
            ResourceKind::Service => "Service",
            ResourceKind::Pod => "Pod",
            ResourceKind::Namespace => "Namespace",
        }
    }

    /// The name of the kind.
    pub fn to_string(&self) -> (s: String)
        ensures
            s@ == kind_name(*self),
    {
        String::from_str(self.as_str())
    }
}

/// The part of an object that says what it should be, by kind.
#[derive(Debug, PartialEq, Eq)]
pub enum ResourceSpec {
    Namespace(()),
    Service(Box<ServiceSpec>),
    Pod(Box<PodSpec>),
    HTTPRoute(HTTPRouteSpec),
}

/// The mathematical value of a [`ResourceSpec`].
pub enum ResourceSpecView {
    Namespace,
    Service(ServiceSpecView),
    Pod(PodSpecView),
    HTTPRoute(HTTPRouteSpecView),
}

impl DeepView for ResourceSpec {
    type V = ResourceSpecView;

    open spec fn deep_view(&self) -> ResourceSpecView {
        match self {
            ResourceSpec::Namespace(_) => ResourceSpecView::Namespace,
            ResourceSpec::Service(s) => ResourceSpecView::Service(s.deep_view()),
            ResourceSpec::Pod(s) => ResourceSpecView::Pod(s.deep_view()),
            ResourceSpec::HTTPRoute(s) => ResourceSpecView::HTTPRoute(s.deep_view()),
        }
    }
}

impl Clone for ResourceSpec {
    fn clone(&self) -> (r: Self)
        ensures
            r.deep_view() == self.deep_view(),
    {
        match self {
            ResourceSpec::Namespace(_) => ResourceSpec::Namespace(()),
            ResourceSpec::Service(s) => ResourceSpec::Service(Box::new((**s).clone())),
            ResourceSpec::Pod(s) => ResourceSpec::Pod(Box::new((**s).clone())),
            ResourceSpec::HTTPRoute(s) => ResourceSpec::HTTPRoute(s.clone()),
        }
    }
}

/// A node of the tree: one object, the attributes shown for it, and the
/// nodes attached under it. The order of `relatives` is the order in which
/// they were attached.
#[derive(Debug, PartialEq, Eq)]
pub struct HierarchyNode {
    pub kind: ResourceKind,
    pub name: String,
    pub relatives: Vec<HierarchyNode>,
    pub metadata: ObjectMeta,
    pub spec: Option<ResourceSpec>,
    pub resource_metadata: ResourceMetadata,
}

/// The mathematical value of a [`HierarchyNode`], with the whole subtree
/// under it.
pub struct NodeView {
    pub kind: ResourceKind,
    pub name: Seq<char>,
    pub relatives: Seq<NodeView>,
    pub metadata: ObjectMetaView,
    pub spec: Option<ResourceSpecView>,
    pub resource_metadata: ResourceMetadataView,
}

/// The value of a node, taken down through all its relatives.
pub open spec fn node_view(node: HierarchyNode) -> NodeView
    decreases node,
{
    NodeView {
        kind: node.kind,
        name: node.name@,
        relatives: Seq::new(
            node.relatives@.len(),
            |i: int|
                if 0 <= i < node.relatives@.len() {
                    node_view(node.relatives@[i])
                } else {
                    arbitrary()
                },
        ),
        metadata: node.metadata.deep_view(),
        spec: node.spec.deep_view(),
        resource_metadata: node.resource_metadata.deep_view(),
    }
}

impl DeepView for HierarchyNode {
    type V = NodeView;

    open spec fn deep_view(&self) -> NodeView {
        node_view(*self)
    }
}

/// The relatives of a node's value are the values of its relatives.
pub proof fn lemma_relatives_view(node: HierarchyNode)
    ensures
        node.deep_view().relatives == node.relatives.deep_view(),
{
}

impl Clone for HierarchyNode {
    fn clone(&self) -> (r: Self)
        ensures
            r.deep_view() == self.deep_view(),
        decreases self,
    {
        let mut relatives: Vec<HierarchyNode> = Vec::new();
        let mut i: usize = 0;
        while i < self.relatives.len()
            invariant
                i <= self.relatives@.len(),
                relatives@.len() == i,
                forall|j: int|
                    0 <= j < i ==> relatives@[j].deep_view() == self.relatives@[j].deep_view(),
            decreases self.relatives.len() - i,
        {
            relatives.push(self.relatives[i].clone());
            i += 1;
        }
        let r = HierarchyNode {
            kind: self.kind,
            name: self.name.clone(),
            relatives,
            metadata: self.metadata.clone(),
            spec: clone_opt(&self.spec),
            resource_metadata: self.resource_metadata.clone(),
        };
        proof {
            assert(r.relatives.deep_view() =~= self.relatives.deep_view());
            lemma_relatives_view(r);
            lemma_relatives_view(*self);
        }
        r
    }
}

/// The text of an optional name; the empty text where it is absent.
pub open spec fn text_or_empty(name: Option<Seq<char>>) -> Seq<char> {
    match name {
        Some(s) => s,
        None => Seq::empty(),
    }
}

/// Copies an optional name; the empty string where it is absent.
pub fn name_or_empty(name: &Option<String>) -> (r: String)
    ensures
        r@ == text_or_empty(name.deep_view()),
{
    match name {
        Some(s) => s.clone(),
        None => String::new(),
    }
}

/// The node that stands for a pod: its labels and container ports, and from
/// its status the phase and the addresses. It has no relatives.
pub open spec fn pod_node(pod: PodView) -> NodeView {
    let spec = match pod.spec {
        Some(s) => Some(ResourceSpecView::Pod(s)),
        None => None,
    };
    let base = extract_metadata(ResourceKind::Pod, pod.metadata, spec);
    NodeView {
        kind: ResourceKind::Pod,
        name: text_or_empty(pod.metadata.name),
        relatives: Seq::empty(),
        metadata: pod.metadata,
        spec,
        resource_metadata: match pod.status {
            Some(status) => ResourceMetadataView {
                phase: status.phase,
                pod_ips: present(pod_ip_list(status)),
                ..base
            },
            None => base,
        },
    }
}

/// Builds the node that stands for a pod.
pub fn new_pod(pod: &Pod) -> (node: HierarchyNode)
    ensures
        node.deep_view() == pod_node(pod.deep_view()),
{
    let spec = match &pod.spec {
        Some(s) => Some(ResourceSpec::Pod(Box::new(s.clone()))),
        None => None,
    };
    let metadata = pod.metadata.clone();
    let mut resource_metadata = extract_resource_metadata(&ResourceKind::Pod, &metadata, &spec);
    match &pod.status {
        Some(status) => {
            resource_metadata.phase = clone_opt_string(&status.phase);
            resource_metadata.pod_ips = present_strings(pod_ips_of(status));
        },
        None => {},
    }
    let node = HierarchyNode {
        kind: ResourceKind::Pod,
        name: name_or_empty(&pod.metadata.name),
        relatives: Vec::new(),
        metadata,
        spec,
        resource_metadata,
    };
    proof {
        assert(node.deep_view().relatives =~= Seq::<NodeView>::empty());
    }
    node
}

/// The node that stands for a service, before any pod is attached: its
/// attributes, with the load-balancer addresses, where there are any, as its
/// external addresses.
pub open spec fn service_node(service: ServiceView) -> NodeView {
    let spec = match service.spec {
        Some(s) => Some(ResourceSpecView::Service(s)),
        None => None,
    };
    let base = extract_metadata(ResourceKind::Service, service.metadata, spec);
    let balancer = load_balancer_ips(service);
    NodeView {
        kind: ResourceKind::Service,
        name: text_or_empty(service.metadata.name),
        relatives: Seq::empty(),
        metadata: service.metadata,
        spec,
        resource_metadata: if balancer.len() == 0 {
            base
        } else {
            ResourceMetadataView { external_ips: Some(balancer), ..base }
        },
    }
}

/// Builds the node that stands for a service, without relatives.
pub fn new_service(service: &Service) -> (node: HierarchyNode)
    ensures
        node.deep_view() == service_node(service.deep_view()),
{
    let spec = match &service.spec {
        Some(s) => Some(ResourceSpec::Service(Box::new(s.clone()))),
        None => None,
    };
    let metadata = service.metadata.clone();
    let mut resource_metadata = extract_resource_metadata(
        &ResourceKind::Service,
        &metadata,
        &spec,
    );
    let lb_ips = extract_load_balancer_ips(service);
    if lb_ips.len() != 0 {
        resource_metadata.external_ips = Some(lb_ips);
    }
    let node = HierarchyNode {
        kind: ResourceKind::Service,
        name: name_or_empty(&service.metadata.name),
        relatives: Vec::new(),
        metadata,
        spec,
        resource_metadata,
    };
    proof {
        assert(node.deep_view().relatives =~= Seq::<NodeView>::empty());
    }
    node
}

/// The node that stands for a route, before any service is attached.
pub open spec fn route_node(route: HTTPRouteView) -> NodeView {
    let spec = Some(ResourceSpecView::HTTPRoute(route.spec));
    NodeView {
        kind: ResourceKind::HTTPRoute,
        name: text_or_empty(route.metadata.name),
        relatives: Seq::empty(),
        metadata: route.metadata,
        spec,
        resource_metadata: extract_metadata(ResourceKind::HTTPRoute, route.metadata, spec),
    }
}

/// Builds the node that stands for a route, without relatives.
pub fn new_httproute(route: &HTTPRoute) -> (node: HierarchyNode)
    ensures
        node.deep_view() == route_node(route.deep_view()),
{
    let spec = Some(ResourceSpec::HTTPRoute(route.spec.clone()));
    let metadata = route.metadata.clone();
    let resource_metadata = extract_resource_metadata(&ResourceKind::HTTPRoute, &metadata, &spec);
    let node = HierarchyNode {
        kind: ResourceKind::HTTPRoute,
        name: name_or_empty(&route.metadata.name),
        relatives: Vec::new(),
        metadata,
        spec,
        resource_metadata,
    };
    proof {
        assert(node.deep_view().relatives =~= Seq::<NodeView>::empty());
    }
    node
}

/// The root that stands for a namespace, with nothing under it.
pub open spec fn namespace_node(namespace: NamespaceView) -> NodeView {
    NodeView {
        kind: ResourceKind::Namespace,
        name: text_or_empty(namespace.metadata.name),
        relatives: Seq::empty(),
        metadata: namespace.metadata,
        spec: Some(ResourceSpecView::Namespace),
        resource_metadata: empty_metadata(),
    }
}

/// Builds the root that stands for a namespace.
pub fn new_namespace(namespace: &Namespace) -> (node: HierarchyNode)
    ensures
        node.deep_view() == namespace_node(namespace.deep_view()),
{
    let node = HierarchyNode {
        kind: ResourceKind::Namespace,
        name: name_or_empty(&namespace.metadata.name),
        relatives: Vec::new(),
        metadata: namespace.metadata.clone(),
        spec: Some(ResourceSpec::Namespace(())),
        resource_metadata: ResourceMetadata::empty(),
    };
    proof {
        assert(node.deep_view().relatives =~= Seq::<NodeView>::empty());
    }
    node
}

/// The root that holds the place of a namespace of which only the name is
/// known yet.
pub open spec fn placeholder_namespace(name: Seq<char>) -> NodeView {
    namespace_node(
        NamespaceView { metadata: ObjectMetaView { name: Some(name), namespace: None, labels: None } },
    )
}

/// Builds the root that holds the place of a namespace known by name only.
pub fn new_placeholder_namespace(name: &str) -> (node: HierarchyNode)
    ensures
        node.deep_view() == placeholder_namespace(name@),
{
    let namespace = Namespace {
        metadata: ObjectMeta { name: Some(String::from_str(name)), namespace: None, labels: None },
    };
    new_namespace(&namespace)
}

} // verus!
