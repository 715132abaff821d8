//! Snapshots of cluster objects, as plain values: for each kind of object
//! the fields that the topology reads, each type with its mathematical value.

use crate::labels::Labels;
use vstd::prelude::*;

verus! {

/// Copies an optional string.
pub fn clone_opt_string(o: &Option<String>) -> (r: Option<String>)
    ensures
        r.deep_view() == o.deep_view(),
{
    match o {
        Some(s) => Some(s.clone()),
        None => None,
    }
}

/// Copies a list whose items copy faithfully.
pub(crate) fn clone_list<T: Clone + DeepView>(v: &Vec<T>) -> (r: Vec<T>)
    requires
        forall|a: T, b: T| call_ensures(T::clone, (&a,), b) ==> a.deep_view() == b.deep_view(),
    ensures
        r.deep_view() == v.deep_view(),
{
    let mut r: Vec<T> = Vec::new();
    let mut i: usize = 0;
    while i < v.len()
        invariant
            i <= v@.len(),
            r@.len() == i,
            forall|j: int| 0 <= j < i ==> r@[j].deep_view() == v@[j].deep_view(),
            forall|a: T, b: T| call_ensures(T::clone, (&a,), b) ==> a.deep_view() == b.deep_view(),
        decreases v.len() - i,
    {
        r.push(v[i].clone());
        i += 1;
    }
    r
}

/// Copies an optional value that copies faithfully.
pub(crate) fn clone_opt<T: Clone + DeepView>(o: &Option<T>) -> (r: Option<T>)
    requires
        forall|a: T, b: T| call_ensures(T::clone, (&a,), b) ==> a.deep_view() == b.deep_view(),
    ensures
        r.deep_view() == o.deep_view(),
{
    match o {
        Some(x) => Some(x.clone()),
        None => None,
    }
}

/// Copies an optional list whose items copy faithfully.
pub(crate) fn clone_opt_list<T: Clone + DeepView>(o: &Option<Vec<T>>) -> (r: Option<Vec<T>>)
    requires
        forall|a: T, b: T| call_ensures(T::clone, (&a,), b) ==> a.deep_view() == b.deep_view(),
    ensures
        r.deep_view() == o.deep_view(),
{
    match o {
        Some(v) => Some(clone_list(v)),
        None => None,
    }
}

/// Copies a list of strings.
pub fn clone_strings(v: &Vec<String>) -> (r: Vec<String>)
    ensures
        r.deep_view() == v.deep_view(),
{
    clone_list(v)
}

/// Copies an optional list of strings.
pub fn clone_opt_strings(o: &Option<Vec<String>>) -> (r: Option<Vec<String>>)
    ensures
        r.deep_view() == o.deep_view(),
{
    clone_opt_list(o)
}

/// Copies a list of numbers.
pub fn clone_numbers(v: &Vec<u32>) -> (r: Vec<u32>)
    ensures
        r.deep_view() == v.deep_view(),
{
    clone_list(v)
}

/// Copies an optional list of numbers.
pub fn clone_opt_numbers(o: &Option<Vec<u32>>) -> (r: Option<Vec<u32>>)
    ensures
        r.deep_view() == o.deep_view(),
{
    clone_opt_list(o)
}

/// The identifying part of an object: its name, the namespace it lives in
/// and its labels.
#[derive(Debug, Default, PartialEq, Eq)]
pub struct ObjectMeta {
    pub name: Option<String>,
    pub namespace: Option<String>,
    pub labels: Option<Labels>,
}

/// The mathematical value of a [`ObjectMeta`].
pub struct ObjectMetaView {
    pub name: Option<Seq<char>>,
    pub namespace: Option<Seq<char>>,
    pub labels: Option<Map<Seq<char>, Seq<char>>>,
}

impl DeepView for ObjectMeta {
    type V = ObjectMetaView;

    open spec fn deep_view(&self) -> ObjectMetaView {
        ObjectMetaView {
            name: self.name.deep_view(),
            namespace: self.namespace.deep_view(),
            labels: self.labels.deep_view(),
        }
    }
}

impl Clone for ObjectMeta {
    fn clone(&self) -> (r: Self)
        ensures
            r.deep_view() == self.deep_view(),
    {
        let name = clone_opt_string(&self.name);
        let namespace = clone_opt_string(&self.namespace);
        let labels = clone_opt(&self.labels);
        ObjectMeta { name, namespace, labels }
    }
}

/// A namespace.
#[derive(Debug, Default, PartialEq, Eq)]
pub struct Namespace {
    pub metadata: ObjectMeta,
}

/// The mathematical value of a [`Namespace`].
pub struct NamespaceView {
    pub metadata: ObjectMetaView,
}

impl DeepView for Namespace {
    type V = NamespaceView;

    open spec fn deep_view(&self) -> NamespaceView {
        NamespaceView { metadata: self.metadata.deep_view() }
    }
}

impl Clone for Namespace {
    fn clone(&self) -> (r: Self)
        ensures
            r.deep_view() == self.deep_view(),
    {
        let metadata = self.metadata.clone();
        Namespace { metadata }
    }
}

/// A port that a container declares.
#[derive(Debug, Default, PartialEq, Eq)]
pub struct ContainerPort {
    pub container_port: i32,
    pub name: Option<String>,
    pub protocol: Option<String>,
}

/// The mathematical value of a [`ContainerPort`].
pub struct ContainerPortView {
    pub container_port: i32,
    pub name: Option<Seq<char>>,
    pub protocol: Option<Seq<char>>,
}

impl DeepView for ContainerPort {
    type V = ContainerPortView;

    open spec fn deep_view(&self) -> ContainerPortView {
        ContainerPortView {
            container_port: self.container_port.deep_view(),
            name: self.name.deep_view(),
            protocol: self.protocol.deep_view(),
        }
    }
}

impl Clone for ContainerPort {
    fn clone(&self) -> (r: Self)
        ensures
            r.deep_view() == self.deep_view(),
    {
        let container_port = self.container_port;
        let name = clone_opt_string(&self.name);
        let protocol = clone_opt_string(&self.protocol);
        ContainerPort { container_port, name, protocol }
    }
}

/// A container of a pod.
#[derive(Debug, Default, PartialEq, Eq)]
pub struct Container {
    pub name: String,
    pub ports: Option<Vec<ContainerPort>>,
}

/// The mathematical value of a [`Container`].
pub struct ContainerView {
    pub name: Seq<char>,
    pub ports: Option<Seq<ContainerPortView>>,
}

impl DeepView for Container {
    type V = ContainerView;

    open spec fn deep_view(&self) -> ContainerView {
        ContainerView {
            name: self.name.deep_view(),
            ports: self.ports.deep_view(),
        }
    }
}

impl Clone for Container {
    fn clone(&self) -> (r: Self)
        ensures
            r.deep_view() == self.deep_view(),
    {
        let name = self.name.clone();
        let ports = clone_opt_list(&self.ports);
        Container { name, ports }
    }
}

/// What a pod is asked to run.
#[derive(Debug, Default, PartialEq, Eq)]
pub struct PodSpec {
    pub containers: Vec<Container>,
}

/// The mathematical value of a [`PodSpec`].
pub struct PodSpecView {
    pub containers: Seq<ContainerView>,
}

impl DeepView for PodSpec {
    type V = PodSpecView;

    open spec fn deep_view(&self) -> PodSpecView {
        PodSpecView { containers: self.containers.deep_view() }
    }
}

impl Clone for PodSpec {
    fn clone(&self) -> (r: Self)
        ensures
            r.deep_view() == self.deep_view(),
    {
        let containers = clone_list(&self.containers);
        PodSpec { containers }
    }
}

/// What is observed of a pod.
#[derive(Debug, Default, PartialEq, Eq)]
pub struct PodStatus {
    pub phase: Option<String>,
    pub pod_ip: Option<String>,
    pub pod_ips: Option<Vec<String>>,
}

/// The mathematical value of a [`PodStatus`].
pub struct PodStatusView {
    pub phase: Option<Seq<char>>,
    pub pod_ip: Option<Seq<char>>,
    pub pod_ips: Option<Seq<Seq<char>>>,
}

impl DeepView for PodStatus {
    type V = PodStatusView;

    open spec fn deep_view(&self) -> PodStatusView {
        PodStatusView {
            phase: self.phase.deep_view(),
            pod_ip: self.pod_ip.deep_view(),
            pod_ips: self.pod_ips.deep_view(),
        }
    }
}

impl Clone for PodStatus {
    fn clone(&self) -> (r: Self)
        ensures
            r.deep_view() == self.deep_view(),
    {
        let phase = clone_opt_string(&self.phase);
        let pod_ip = clone_opt_string(&self.pod_ip);
        let pod_ips = clone_opt_strings(&self.pod_ips);
        PodStatus { phase, pod_ip, pod_ips }
    }
}

/// A pod.
#[derive(Debug, Default, PartialEq, Eq)]
pub struct Pod {
    pub metadata: ObjectMeta,
    pub spec: Option<PodSpec>,
    pub status: Option<PodStatus>,
}

/// The mathematical value of a [`Pod`].
pub struct PodView {
    pub metadata: ObjectMetaView,
    pub spec: Option<PodSpecView>,
    pub status: Option<PodStatusView>,
}

impl DeepView for Pod {
    type V = PodView;

    open spec fn deep_view(&self) -> PodView {
        PodView {
            metadata: self.metadata.deep_view(),
            spec: self.spec.deep_view(),
            status: self.status.deep_view(),
        }
    }
}

impl Clone for Pod {
    fn clone(&self) -> (r: Self)
        ensures
            r.deep_view() == self.deep_view(),
    {
        let metadata = self.metadata.clone();
        let spec = clone_opt(&self.spec);
        let status = clone_opt(&self.status);
        Pod { metadata, spec, status }
    }
}

/// The target of a service port: a port number, or the name of a container
/// port.
#[derive(Debug, PartialEq, Eq)]
pub enum IntOrString {
    Int(i32),
    String(String),
}

/// The mathematical value of an [`IntOrString`].
pub enum IntOrStringView {
    Int(i32),
    String(Seq<char>),
}

impl DeepView for IntOrString {
    type V = IntOrStringView;

    open spec fn deep_view(&self) -> IntOrStringView {
        match self {
            IntOrString::Int(i) => IntOrStringView::Int(*i),
            IntOrString::String(s) => IntOrStringView::String(s@),
        }
    }
}

impl Clone for IntOrString {
    fn clone(&self) -> (r: Self)
        ensures
            r.deep_view() == self.deep_view(),
    {
        match self {
            IntOrString::Int(i) => IntOrString::Int(*i),
            IntOrString::String(s) => IntOrString::String(s.clone()),
        }
    }
}

/// A port that a service exposes.
#[derive(Debug, Default, PartialEq, Eq)]
pub struct ServicePort {
    pub name: Option<String>,
    pub port: i32,
    pub target_port: Option<IntOrString>,
}

/// The mathematical value of a [`ServicePort`].
pub struct ServicePortView {
    pub name: Option<Seq<char>>,
    pub port: i32,
    pub target_port: Option<IntOrStringView>,
}

impl DeepView for ServicePort {
    type V = ServicePortView;

    open spec fn deep_view(&self) -> ServicePortView {
        ServicePortView {
            name: self.name.deep_view(),
            port: self.port.deep_view(),
            target_port: self.target_port.deep_view(),
        }
    }
}

impl Clone for ServicePort {
    fn clone(&self) -> (r: Self)
        ensures
            r.deep_view() == self.deep_view(),
    {
        let name = clone_opt_string(&self.name);
        let port = self.port;
        let target_port = clone_opt(&self.target_port);
        ServicePort { name, port, target_port }
    }
}

/// What a service is asked to be.
#[derive(Debug, Default, PartialEq, Eq)]
pub struct ServiceSpec {
    pub selector: Option<Labels>,
    pub ports: Option<Vec<ServicePort>>,
    pub type_: Option<String>,
    pub cluster_ip: Option<String>,
    pub cluster_ips: Option<Vec<String>>,
    pub external_ips: Option<Vec<String>>,
}

/// The mathematical value of a [`ServiceSpec`].
pub struct ServiceSpecView {
    pub selector: Option<Map<Seq<char>, Seq<char>>>,
    pub ports: Option<Seq<ServicePortView>>,
    pub type_: Option<Seq<char>>,
    pub cluster_ip: Option<Seq<char>>,
    pub cluster_ips: Option<Seq<Seq<char>>>,
    pub external_ips: Option<Seq<Seq<char>>>,
}

impl DeepView for ServiceSpec {
    type V = ServiceSpecView;

    open spec fn deep_view(&self) -> ServiceSpecView {
        ServiceSpecView {
            selector: self.selector.deep_view(),
            ports: self.ports.deep_view(),
            type_: self.type_.deep_view(),
            cluster_ip: self.cluster_ip.deep_view(),
            cluster_ips: self.cluster_ips.deep_view(),
            external_ips: self.external_ips.deep_view(),
        }
    }
}

impl Clone for ServiceSpec {
    fn clone(&self) -> (r: Self)
        ensures
            r.deep_view() == self.deep_view(),
    {
        let selector = clone_opt(&self.selector);
        let ports = clone_opt_list(&self.ports);
        let type_ = clone_opt_string(&self.type_);
        let cluster_ip = clone_opt_string(&self.cluster_ip);
        let cluster_ips = clone_opt_strings(&self.cluster_ips);
        let external_ips = clone_opt_strings(&self.external_ips);
        ServiceSpec { selector, ports, type_, cluster_ip, cluster_ips, external_ips }
    }
}

/// One point through which a load balancer lets traffic in.
#[derive(Debug, Default, PartialEq, Eq)]
pub struct LoadBalancerIngress {
    pub ip: Option<String>,
    pub hostname: Option<String>,
}

/// The mathematical value of a [`LoadBalancerIngress`].
pub struct LoadBalancerIngressView {
    pub ip: Option<Seq<char>>,
    pub hostname: Option<Seq<char>>,
}

impl DeepView for LoadBalancerIngress {
    type V = LoadBalancerIngressView;

    open spec fn deep_view(&self) -> LoadBalancerIngressView {
        LoadBalancerIngressView {
            ip: self.ip.deep_view(),
            hostname: self.hostname.deep_view(),
        }
    }
}

impl Clone for LoadBalancerIngress {
    fn clone(&self) -> (r: Self)
        ensures
            r.deep_view() == self.deep_view(),
    {
        let ip = clone_opt_string(&self.ip);
        let hostname = clone_opt_string(&self.hostname);
        LoadBalancerIngress { ip, hostname }
    }
}

/// What is observed of the load balancer of a service.
#[derive(Debug, Default, PartialEq, Eq)]
pub struct LoadBalancerStatus {
    pub ingress: Option<Vec<LoadBalancerIngress>>,
}

/// The mathematical value of a [`LoadBalancerStatus`].
pub struct LoadBalancerStatusView {
    pub ingress: Option<Seq<LoadBalancerIngressView>>,
}

impl DeepView for LoadBalancerStatus {
    type V = LoadBalancerStatusView;

    open spec fn deep_view(&self) -> LoadBalancerStatusView {
        LoadBalancerStatusView { ingress: self.ingress.deep_view() }
    }
}

impl Clone for LoadBalancerStatus {
    fn clone(&self) -> (r: Self)
        ensures
            r.deep_view() == self.deep_view(),
    {
        let ingress = clone_opt_list(&self.ingress);
        LoadBalancerStatus { ingress }
    }
}

/// What is observed of a service.
#[derive(Debug, Default, PartialEq, Eq)]
pub struct ServiceStatus {
    pub load_balancer: Option<LoadBalancerStatus>,
}

/// The mathematical value of a [`ServiceStatus`].
pub struct ServiceStatusView {
    pub load_balancer: Option<LoadBalancerStatusView>,
}

impl DeepView for ServiceStatus {
    type V = ServiceStatusView;

    open spec fn deep_view(&self) -> ServiceStatusView {
        ServiceStatusView { load_balancer: self.load_balancer.deep_view() }
    }
}

impl Clone for ServiceStatus {
    fn clone(&self) -> (r: Self)
        ensures
            r.deep_view() == self.deep_view(),
    {
        let load_balancer = clone_opt(&self.load_balancer);
        ServiceStatus { load_balancer }
    }
}

/// A service.
#[derive(Debug, Default, PartialEq, Eq)]
pub struct Service {
    pub metadata: ObjectMeta,
    pub spec: Option<ServiceSpec>,
    pub status: Option<ServiceStatus>,
}

/// The mathematical value of a [`Service`].
pub struct ServiceView {
    pub metadata: ObjectMetaView,
    pub spec: Option<ServiceSpecView>,
    pub status: Option<ServiceStatusView>,
}

impl DeepView for Service {
    type V = ServiceView;

    open spec fn deep_view(&self) -> ServiceView {
        ServiceView {
            metadata: self.metadata.deep_view(),
            spec: self.spec.deep_view(),
            status: self.status.deep_view(),
        }
    }
}

impl Clone for Service {
    fn clone(&self) -> (r: Self)
        ensures
            r.deep_view() == self.deep_view(),
    {
        let metadata = self.metadata.clone();
        let spec = clone_opt(&self.spec);
        let status = clone_opt(&self.status);
        Service { metadata, spec, status }
    }
}

/// An entry of a route rule that names an object to forward traffic to.
#[derive(Debug, Default, PartialEq, Eq)]
pub struct HTTPBackendRef {
    pub kind: Option<String>,
    pub name: String,
}

/// The mathematical value of a [`HTTPBackendRef`].
pub struct HTTPBackendRefView {
    pub kind: Option<Seq<char>>,
    pub name: Seq<char>,
}

impl DeepView for HTTPBackendRef {
    type V = HTTPBackendRefView;

    open spec fn deep_view(&self) -> HTTPBackendRefView {
        HTTPBackendRefView {
            kind: self.kind.deep_view(),
            name: self.name.deep_view(),
        }
    }
}

impl Clone for HTTPBackendRef {
    fn clone(&self) -> (r: Self)
        ensures
            r.deep_view() == self.deep_view(),
    {
        let kind = clone_opt_string(&self.kind);
        let name = self.name.clone();
        HTTPBackendRef { kind, name }
    }
}

/// One rule of a route.
#[derive(Debug, Default, PartialEq, Eq)]
pub struct HTTPRouteRule {
    pub backend_refs: Option<Vec<HTTPBackendRef>>,
}

/// The mathematical value of a [`HTTPRouteRule`].
pub struct HTTPRouteRuleView {
    pub backend_refs: Option<Seq<HTTPBackendRefView>>,
}

impl DeepView for HTTPRouteRule {
    type V = HTTPRouteRuleView;

    open spec fn deep_view(&self) -> HTTPRouteRuleView {
        HTTPRouteRuleView { backend_refs: self.backend_refs.deep_view() }
    }
}

impl Clone for HTTPRouteRule {
    fn clone(&self) -> (r: Self)
        ensures
            r.deep_view() == self.deep_view(),
    {
        let backend_refs = clone_opt_list(&self.backend_refs);
        HTTPRouteRule { backend_refs }
    }
}

/// What a route is asked to do.
#[derive(Debug, Default, PartialEq, Eq)]
pub struct HTTPRouteSpec {
    pub hostnames: Option<Vec<String>>,
    pub rules: Option<Vec<HTTPRouteRule>>,
}

/// The mathematical value of a [`HTTPRouteSpec`].
pub struct HTTPRouteSpecView {
    pub hostnames: Option<Seq<Seq<char>>>,
    pub rules: Option<Seq<HTTPRouteRuleView>>,
}

impl DeepView for HTTPRouteSpec {
    type V = HTTPRouteSpecView;

    open spec fn deep_view(&self) -> HTTPRouteSpecView {
        HTTPRouteSpecView {
            hostnames: self.hostnames.deep_view(),
            rules: self.rules.deep_view(),
        }
    }
}

impl Clone for HTTPRouteSpec {
    fn clone(&self) -> (r: Self)
        ensures
            r.deep_view() == self.deep_view(),
    {
        let hostnames = clone_opt_strings(&self.hostnames);
        let rules = clone_opt_list(&self.rules);
        HTTPRouteSpec { hostnames, rules }
    }
}

/// A route.
#[derive(Debug, Default, PartialEq, Eq)]
pub struct HTTPRoute {
    pub metadata: ObjectMeta,
    pub spec: HTTPRouteSpec,
}

/// The mathematical value of a [`HTTPRoute`].
pub struct HTTPRouteView {
    pub metadata: ObjectMetaView,
    pub spec: HTTPRouteSpecView,
}

impl DeepView for HTTPRoute {
    type V = HTTPRouteView;

    open spec fn deep_view(&self) -> HTTPRouteView {
        HTTPRouteView {
            metadata: self.metadata.deep_view(),
            spec: self.spec.deep_view(),
        }
    }
}

impl Clone for HTTPRoute {
    fn clone(&self) -> (r: Self)
        ensures
            r.deep_view() == self.deep_view(),
    {
        let metadata = self.metadata.clone();
        let spec = self.spec.clone();
        HTTPRoute { metadata, spec }
    }
}


} // verus!
