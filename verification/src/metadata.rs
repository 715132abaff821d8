//! The attributes shown on a node, and how they are read off an object.

use crate::labels::Labels;
use crate::node::{ResourceKind, ResourceSpec, ResourceSpecView, kind_name};
use crate::objects::{
    ContainerPort, ContainerPortView, ContainerView, HTTPBackendRef, HTTPBackendRefView,
    HTTPRouteRuleView, HTTPRouteSpec, HTTPRouteSpecView, IntOrString, IntOrStringView,
    LoadBalancerIngress, LoadBalancerIngressView, ObjectMeta, ObjectMetaView, PodSpec, PodSpecView,
    PodStatus, PodStatusView, Service, ServicePort, ServicePortView, ServiceSpec, ServiceSpecView,
    ServiceView, clone_numbers, clone_opt, clone_opt_list, clone_opt_numbers, clone_opt_string,
    clone_opt_strings, clone_strings,
};
use crate::text::{decimal_text, i32_to_decimal, str_eq};
use vstd::prelude::*;
use vstd::string::*;

verus! {

/// A container port as shown on a pod: the number with the name and the
/// protocol it was declared with.
#[derive(Debug, Default, PartialEq, Eq)]
pub struct ContainerPortInfo {
    pub port: u32,
    pub name: Option<String>,
    pub protocol: Option<String>,
}

/// The mathematical value of a [`ContainerPortInfo`].
pub struct ContainerPortInfoView {
    pub port: u32,
    pub name: Option<Seq<char>>,
    pub protocol: Option<Seq<char>>,
}

impl DeepView for ContainerPortInfo {
    type V = ContainerPortInfoView;

    open spec fn deep_view(&self) -> ContainerPortInfoView {
        ContainerPortInfoView {
            port: self.port.deep_view(),
            name: self.name.deep_view(),
            protocol: self.protocol.deep_view(),
        }
    }
}

impl Clone for ContainerPortInfo {
    fn clone(&self) -> (r: Self)
        ensures
            r.deep_view() == self.deep_view(),
    {
        let port = self.port;
        let name = clone_opt_string(&self.name);
        let protocol = clone_opt_string(&self.protocol);
        ContainerPortInfo { port, name, protocol }
    }
}

/// The ports of a service, prepared for display.
#[derive(Debug, Default, PartialEq, Eq)]
pub struct ServicePortInfo {
    /// The port numbers that the service exposes.
    pub service_ports: Vec<u32>,
    /// For each port, the port and where it leads.
    pub port_mappings: Vec<String>,
    /// For each port, the number it leads to; the port itself where the target has a name or is absent.
    pub target_ports: Vec<u32>,
    /// The names of the targets that have one.
    pub target_port_names: Vec<String>,
}

/// The mathematical value of a [`ServicePortInfo`].
pub struct ServicePortInfoView {
    pub service_ports: Seq<u32>,
    pub port_mappings: Seq<Seq<char>>,
    pub target_ports: Seq<u32>,
    pub target_port_names: Seq<Seq<char>>,
}

impl DeepView for ServicePortInfo {
    type V = ServicePortInfoView;

    open spec fn deep_view(&self) -> ServicePortInfoView {
        ServicePortInfoView {
            service_ports: self.service_ports.deep_view(),
            port_mappings: self.port_mappings.deep_view(),
            target_ports: self.target_ports.deep_view(),
            target_port_names: self.target_port_names.deep_view(),
        }
    }
}

impl Clone for ServicePortInfo {
    fn clone(&self) -> (r: Self)
        ensures
            r.deep_view() == self.deep_view(),
    {
        let service_ports = clone_numbers(&self.service_ports);
        let port_mappings = clone_strings(&self.port_mappings);
        let target_ports = clone_numbers(&self.target_ports);
        let target_port_names = clone_strings(&self.target_port_names);
        ServicePortInfo { service_ports, port_mappings, target_ports, target_port_names }
    }
}

/// The attributes shown on a node of the tree. Each is present only for the
/// kinds that have it, and only where the object gives it.
#[derive(Debug, Default, PartialEq, Eq)]
pub struct ResourceMetadata {
    pub hostnames: Option<Vec<String>>,
    pub selectors: Option<Labels>,
    pub ports: Option<Vec<u32>>,
    pub port_mappings: Option<Vec<String>>,
    pub target_ports: Option<Vec<u32>>,
    pub target_port_names: Option<Vec<String>>,
    pub labels: Option<Labels>,
    pub phase: Option<String>,
    pub backend_refs: Option<Vec<String>>,
    pub service_type: Option<String>,
    pub cluster_ips: Option<Vec<String>>,
    pub external_ips: Option<Vec<String>>,
    pub pod_ips: Option<Vec<String>>,
    pub container_ports: Option<Vec<ContainerPortInfo>>,
}

/// The mathematical value of a [`ResourceMetadata`].
pub struct ResourceMetadataView {
    pub hostnames: Option<Seq<Seq<char>>>,
    pub selectors: Option<Map<Seq<char>, Seq<char>>>,
    pub ports: Option<Seq<u32>>,
    pub port_mappings: Option<Seq<Seq<char>>>,
    pub target_ports: Option<Seq<u32>>,
    pub target_port_names: Option<Seq<Seq<char>>>,
    pub labels: Option<Map<Seq<char>, Seq<char>>>,
    pub phase: Option<Seq<char>>,
    pub backend_refs: Option<Seq<Seq<char>>>,
    pub service_type: Option<Seq<char>>,
    pub cluster_ips: Option<Seq<Seq<char>>>,
    pub external_ips: Option<Seq<Seq<char>>>,
    pub pod_ips: Option<Seq<Seq<char>>>,
    pub container_ports: Option<Seq<ContainerPortInfoView>>,
}

impl DeepView for ResourceMetadata {
    type V = ResourceMetadataView;

    open spec fn deep_view(&self) -> ResourceMetadataView {
        ResourceMetadataView {
            hostnames: self.hostnames.deep_view(),
            selectors: self.selectors.deep_view(),
            ports: self.ports.deep_view(),
            port_mappings: self.port_mappings.deep_view(),
            target_ports: self.target_ports.deep_view(),
            target_port_names: self.target_port_names.deep_view(),
            labels: self.labels.deep_view(),
            phase: self.phase.deep_view(),
            backend_refs: self.backend_refs.deep_view(),
            service_type: self.service_type.deep_view(),
            cluster_ips: self.cluster_ips.deep_view(),
            external_ips: self.external_ips.deep_view(),
            pod_ips: self.pod_ips.deep_view(),
            container_ports: self.container_ports.deep_view(),
        }
    }
}

impl Clone for ResourceMetadata {
    fn clone(&self) -> (r: Self)
        ensures
            r.deep_view() == self.deep_view(),
    {
        let hostnames = clone_opt_strings(&self.hostnames);
        let selectors = clone_opt(&self.selectors);
        let ports = clone_opt_numbers(&self.ports);
        let port_mappings = clone_opt_strings(&self.port_mappings);
        let target_ports = clone_opt_numbers(&self.target_ports);
        let target_port_names = clone_opt_strings(&self.target_port_names);
        let labels = clone_opt(&self.labels);
        let phase = clone_opt_string(&self.phase);
        let backend_refs = clone_opt_strings(&self.backend_refs);
        let service_type = clone_opt_string(&self.service_type);
        let cluster_ips = clone_opt_strings(&self.cluster_ips);
        let external_ips = clone_opt_strings(&self.external_ips);
        let pod_ips = clone_opt_strings(&self.pod_ips);
        let container_ports = clone_opt_list(&self.container_ports);
        ResourceMetadata {
            hostnames,
            selectors,
            ports,
            port_mappings,
            target_ports,
            target_port_names,
            labels,
            phase,
            backend_refs,
            service_type,
            cluster_ips,
            external_ips,
            pod_ips,
            container_ports,
        }
    }
}


// ---------------------------------------------------------------------------
// Service ports

/// The sign that stands between a port and its target.
pub open spec fn arrow() -> Seq<char> {
    seq!['\u{2192}']
}

/// How one service port reads: the port alone where the target is the same
/// number or is absent, else the port, an arrow and the target.
pub open spec fn port_mapping(p: ServicePortView) -> Seq<char> {
    match p.target_port {
        Some(IntOrStringView::Int(i)) => if i == p.port {
            decimal_text(p.port as int)
        } else {
            decimal_text(p.port as int) + arrow() + decimal_text(i as int)
        },
        Some(IntOrStringView::String(s)) => decimal_text(p.port as int) + arrow() + s,
        None => decimal_text(p.port as int),
    }
}

/// The number that a service port leads to: the target where it is a number,
/// else the port itself.
pub open spec fn target_port_number(p: ServicePortView) -> u32 {
    match p.target_port {
        Some(IntOrStringView::Int(i)) => i as u32,
        _ => p.port as u32,
    }
}

/// The names of the named targets among the first `k` ports, in order.
pub open spec fn target_port_names(ports: Seq<ServicePortView>, k: nat) -> Seq<Seq<char>>
    decreases k,
{
    if k == 0 || k > ports.len() {
        Seq::empty()
    } else {
        let rest = target_port_names(ports, (k - 1) as nat);
        match ports[k - 1].target_port {
            Some(IntOrStringView::String(s)) => rest.push(s),
            _ => rest,
        }
    }
}

/// The display form of a list of service ports.
pub open spec fn port_info(ports: Seq<ServicePortView>) -> ServicePortInfoView {
    ServicePortInfoView {
        service_ports: Seq::new(ports.len(), |i: int| ports[i].port as u32),
        port_mappings: Seq::new(ports.len(), |i: int| port_mapping(ports[i])),
        target_ports: Seq::new(ports.len(), |i: int| target_port_number(ports[i])),
        target_port_names: target_port_names(ports, ports.len()),
    }
}

fn port_mapping_text(p: &ServicePort) -> (s: String)
    ensures
        s@ == port_mapping(p.deep_view()),
{
    let mut s = i32_to_decimal(p.port);
    proof {
        reveal_strlit("\u{2192}");
    }
    match &p.target_port {
        Some(IntOrString::Int(i)) => {
            if *i != p.port {
                s.append("\u{2192}");
                let t = i32_to_decimal(*i);
                s.append(t.as_str());
            }
        },
        Some(IntOrString::String(name)) => {
            s.append("\u{2192}");
            s.append(name.as_str());
        },
        None => {},
    }
    s
}

/// Prepares the ports of a service for display.
pub fn extract_port_info(ports: &[ServicePort]) -> (info: ServicePortInfo)
    ensures
        info.deep_view() == port_info(ports.deep_view()),
{
    let mut service_ports: Vec<u32> = Vec::new();
    let mut port_mappings: Vec<String> = Vec::new();
    let mut target_ports: Vec<u32> = Vec::new();
    let mut target_port_names: Vec<String> = Vec::new();
    let ghost views = ports.deep_view();
    let mut i: usize = 0;
    while i < ports.len()
        invariant
            i <= ports@.len(),
            views == ports.deep_view(),
            service_ports@.len() == i,
            port_mappings@.len() == i,
            target_ports@.len() == i,
            forall|j: int| 0 <= j < i ==> service_ports@[j] == views[j].port as u32,
            forall|j: int| 0 <= j < i ==> port_mappings@[j]@ == port_mapping(views[j]),
            forall|j: int| 0 <= j < i ==> target_ports@[j] == target_port_number(views[j]),
            target_port_names.deep_view() == self::target_port_names(views, i as nat),
        decreases ports.len() - i,
    {
        let p = &ports[i];
        service_ports.push(#[verifier::truncate] (p.port as u32));
        port_mappings.push(port_mapping_text(p));
        match &p.target_port {
            Some(IntOrString::Int(t)) => {
                target_ports.push(#[verifier::truncate] (*t as u32));
            },
            Some(IntOrString::String(name)) => {
                target_ports.push(#[verifier::truncate] (p.port as u32));
                target_port_names.push(name.clone());
            },
            None => {
                target_ports.push(#[verifier::truncate] (p.port as u32));
            },
        }
        i += 1;
    }
    let info = ServicePortInfo { service_ports, port_mappings, target_ports, target_port_names };
    proof {
        let want = port_info(views);
        assert(info.service_ports.deep_view() =~= want.service_ports);
        assert(info.port_mappings.deep_view() =~= want.port_mappings);
        assert(info.target_ports.deep_view() =~= want.target_ports);
    }
    info
}

// ---------------------------------------------------------------------------
// Addresses

/// `acc`, then those of the first `k` addresses that are not empty, not
/// already listed and, where `skip_none` is set, not the word `None`.
pub open spec fn add_distinct(
    acc: Seq<Seq<char>>,
    ips: Seq<Seq<char>>,
    k: nat,
    skip_none: bool,
) -> Seq<Seq<char>>
    decreases k,
{
    if k == 0 || k > ips.len() {
        acc
    } else {
        let rest = add_distinct(acc, ips, (k - 1) as nat, skip_none);
        let ip = ips[k - 1];
        if ip.len() == 0 || (skip_none && ip == "None"@) || rest.contains(ip) {
            rest
        } else {
            rest.push(ip)
        }
    }
}

/// Whether a list of strings holds the given text.
pub fn contains_text(list: &Vec<String>, text: &str) -> (r: bool)
    ensures
        r == list.deep_view().contains(text@),
{
    let mut i: usize = 0;
    while i < list.len()
        invariant
            i <= list@.len(),
            forall|j: int| 0 <= j < i ==> list.deep_view()[j] != text@,
        decreases list.len() - i,
    {
        if str_eq(list[i].as_str(), text) {
            assert(list.deep_view()[i as int] == text@);
            return true;
        }
        i += 1;
    }
    false
}

fn is_listable(ip: &str, skip_none: bool) -> (r: bool)
    ensures
        r == !(ip@.len() == 0 || (skip_none && ip@ == "None"@)),
{
    if str_eq(ip, "") {
        proof {
            reveal_strlit("");
        }
        false
    } else {
        proof {
            reveal_strlit("");
            assert(ip@.len() != 0) by {
                if ip@.len() == 0 {
                    assert(ip@ =~= ""@);
                }
            }
        }
        !(skip_none && str_eq(ip, "None"))
    }
}

fn push_distinct(acc: &mut Vec<String>, ips: &Vec<String>, skip_none: bool)
    ensures
        final(acc).deep_view() == add_distinct(
            old(acc).deep_view(),
            ips.deep_view(),
            ips.len() as nat,
            skip_none,
        ),
{
    let ghost start = acc.deep_view();
    let ghost views = ips.deep_view();
    let mut i: usize = 0;
    while i < ips.len()
        invariant
            i <= ips@.len(),
            views == ips.deep_view(),
            acc.deep_view() == add_distinct(start, views, i as nat, skip_none),
        decreases ips.len() - i,
    {
        let ip = &ips[i];
        if is_listable(ip.as_str(), skip_none) && !contains_text(acc, ip.as_str()) {
            acc.push(ip.clone());
        }
        i += 1;
    }
}

/// The cluster addresses of a service: the single address first, then the
/// listed ones, each once; empty entries and the word `None` left out.
pub open spec fn cluster_ip_list(spec: ServiceSpecView) -> Seq<Seq<char>> {
    let first = match spec.cluster_ip {
        Some(ip) => if ip.len() == 0 || ip == "None"@ {
            Seq::<Seq<char>>::empty()
        } else {
            seq![ip]
        },
        None => Seq::<Seq<char>>::empty(),
    };
    match spec.cluster_ips {
        Some(ips) => add_distinct(first, ips, ips.len(), true),
        None => first,
    }
}

/// The addresses of a pod: the primary address first, then the listed ones,
/// each once; empty entries left out.
pub open spec fn pod_ip_list(status: PodStatusView) -> Seq<Seq<char>> {
    let first = match status.pod_ip {
        Some(ip) => if ip.len() == 0 {
            Seq::<Seq<char>>::empty()
        } else {
            seq![ip]
        },
        None => Seq::<Seq<char>>::empty(),
    };
    match status.pod_ips {
        Some(ips) => add_distinct(first, ips, ips.len(), false),
        None => first,
    }
}

fn first_address(ip: &Option<String>, skip_none: bool) -> (r: Vec<String>)
    ensures
        r.deep_view() == (match ip.deep_view() {
            Some(t) => if t.len() == 0 || (skip_none && t == "None"@) {
                Seq::<Seq<char>>::empty()
            } else {
                seq![t]
            },
            None => Seq::<Seq<char>>::empty(),
        }),
{
    let mut r: Vec<String> = Vec::new();
    match ip {
        Some(t) => {
            if is_listable(t.as_str(), skip_none) {
                r.push(t.clone());
            }
        },
        None => {},
    }
    r
}

/// Collects the cluster addresses of a service.
pub fn cluster_ips_of(spec: &ServiceSpec) -> (r: Vec<String>)
    ensures
        r.deep_view() == cluster_ip_list(spec.deep_view()),
{
    let mut r = first_address(&spec.cluster_ip, true);
    match &spec.cluster_ips {
        Some(ips) => {
            push_distinct(&mut r, ips, true);
        },
        None => {},
    }
    r
}

/// Collects the addresses of a pod.
pub fn pod_ips_of(status: &PodStatus) -> (r: Vec<String>)
    ensures
        r.deep_view() == pod_ip_list(status.deep_view()),
{
    let mut r = first_address(&status.pod_ip, false);
    match &status.pod_ips {
        Some(ips) => {
            push_distinct(&mut r, ips, false);
        },
        None => {},
    }
    r
}

/// For each of the first `k` ingress points that has one, its address: the
/// IP where there is one, else the host name.
pub open spec fn ingress_addresses(ingress: Seq<LoadBalancerIngressView>, k: nat) -> Seq<Seq<char>>
    decreases k,
{
    if k == 0 || k > ingress.len() {
        Seq::empty()
    } else {
        let rest = ingress_addresses(ingress, (k - 1) as nat);
        match ingress[k - 1].ip {
            Some(ip) => rest.push(ip),
            None => match ingress[k - 1].hostname {
                Some(host) => rest.push(host),
                None => rest,
            },
        }
    }
}

/// The addresses under which the load balancer of a service is reached.
pub open spec fn load_balancer_ips(service: ServiceView) -> Seq<Seq<char>> {
    match service.status {
        Some(status) => match status.load_balancer {
            Some(lb) => match lb.ingress {
                Some(list) => ingress_addresses(list, list.len()),
                None => Seq::empty(),
            },
            None => Seq::empty(),
        },
        None => Seq::empty(),
    }
}

fn ingress_addresses_of(list: &Vec<LoadBalancerIngress>) -> (ips: Vec<String>)
    ensures
        ips.deep_view() == ingress_addresses(list.deep_view(), list.len() as nat),
{
    let mut ips: Vec<String> = Vec::new();
    let ghost views = list.deep_view();
    let mut i: usize = 0;
    while i < list.len()
        invariant
            i <= list@.len(),
            views == list.deep_view(),
            ips.deep_view() == ingress_addresses(views, i as nat),
        decreases list.len() - i,
    {
        let entry = &list[i];
        match &entry.ip {
            Some(ip) => {
                ips.push(ip.clone());
            },
            None => match &entry.hostname {
                Some(host) => {
                    ips.push(host.clone());
                },
                None => {},
            },
        }
        i += 1;
    }
    ips
}

/// Reads the load-balancer addresses off the status of a service.
pub fn extract_load_balancer_ips(service: &Service) -> (ips: Vec<String>)
    ensures
        ips.deep_view() == load_balancer_ips(service.deep_view()),
{
    let empty: Vec<String> = Vec::new();
    let Some(status) = &service.status else {
        return empty;
    };
    let Some(load_balancer) = &status.load_balancer else {
        return empty;
    };
    let Some(ingress_list) = &load_balancer.ingress else {
        return empty;
    };
    ingress_addresses_of(ingress_list)
}

// ---------------------------------------------------------------------------
// Route backends

/// Whether a backend reference declares a service as its target.
pub open spec fn is_service_ref(r: HTTPBackendRefView) -> bool {
    r.kind == Some(kind_name(ResourceKind::Service))
}

/// The names of the services among the first `k` backend references.
pub open spec fn rule_backends(refs: Seq<HTTPBackendRefView>, k: nat) -> Seq<Seq<char>>
    decreases k,
{
    if k == 0 || k > refs.len() {
        Seq::empty()
    } else {
        let rest = rule_backends(refs, (k - 1) as nat);
        if is_service_ref(refs[k - 1]) {
            rest.push(refs[k - 1].name)
        } else {
            rest
        }
    }
}

/// The names of the services that the first `k` rules refer to, rule by rule.
pub open spec fn rules_backends(rules: Seq<HTTPRouteRuleView>, k: nat) -> Seq<Seq<char>>
    decreases k,
{
    if k == 0 || k > rules.len() {
        Seq::empty()
    } else {
        let rest = rules_backends(rules, (k - 1) as nat);
        match rules[k - 1].backend_refs {
            Some(refs) => rest + rule_backends(refs, refs.len()),
            None => rest,
        }
    }
}

/// The names of the services that a route refers to, in the order of its
/// rules and their references. A service named twice is listed twice.
pub open spec fn service_backends(spec: HTTPRouteSpecView) -> Seq<Seq<char>> {
    match spec.rules {
        Some(rules) => rules_backends(rules, rules.len()),
        None => Seq::empty(),
    }
}

/// Whether a backend reference declares a service as its target.
pub fn backend_is_service(r: &HTTPBackendRef) -> (b: bool)
    ensures
        b == is_service_ref(r.deep_view()),
{
    match &r.kind {
        Some(kind) => str_eq(kind.as_str(), ResourceKind::Service.as_str()),
        None => false,
    }
}

fn push_rule_backends(out: &mut Vec<String>, refs: &Vec<HTTPBackendRef>)
    ensures
        final(out).deep_view() == old(out).deep_view() + rule_backends(
            refs.deep_view(),
            refs.len() as nat,
        ),
{
    let ghost start = out.deep_view();
    let ghost views = refs.deep_view();
    let mut i: usize = 0;
    while i < refs.len()
        invariant
            i <= refs@.len(),
            views == refs.deep_view(),
            out.deep_view() == start + rule_backends(views, i as nat),
        decreases refs.len() - i,
    {
        let r = &refs[i];
        if backend_is_service(r) {
            let ghost before = out.deep_view();
            out.push(r.name.clone());
            assert(out.deep_view() =~= before.push(r.name@));
        }
        i += 1;
    }
}

/// Lists the services that a route refers to.
pub fn service_backend_names(spec: &HTTPRouteSpec) -> (names: Vec<String>)
    ensures
        names.deep_view() == service_backends(spec.deep_view()),
{
    let mut names: Vec<String> = Vec::new();
    match &spec.rules {
        Some(rules) => {
            let ghost views = rules.deep_view();
            let mut i: usize = 0;
            while i < rules.len()
                invariant
                    i <= rules@.len(),
                    views == rules.deep_view(),
                    names.deep_view() == rules_backends(views, i as nat),
                decreases rules.len() - i,
            {
                let rule = &rules[i];
                match &rule.backend_refs {
                    Some(refs) => {
                        push_rule_backends(&mut names, refs);
                    },
                    None => {},
                }
                i += 1;
            }
        },
        None => {},
    }
    names
}

// ---------------------------------------------------------------------------
// Container ports

/// A container port as it is shown.
pub open spec fn shown_port(p: ContainerPortView) -> ContainerPortInfoView {
    ContainerPortInfoView { port: p.container_port as u32, name: p.name, protocol: p.protocol }
}

/// The ports that the first `k` containers declare, container by container.
pub open spec fn container_ports(containers: Seq<ContainerView>, k: nat) -> Seq<
    ContainerPortInfoView,
>
    decreases k,
{
    if k == 0 || k > containers.len() {
        Seq::empty()
    } else {
        let rest = container_ports(containers, (k - 1) as nat);
        match containers[k - 1].ports {
            Some(ports) => rest + Seq::new(ports.len(), |i: int| shown_port(ports[i])),
            None => rest,
        }
    }
}

/// The numbers of a list of shown ports.
pub open spec fn port_numbers(ports: Seq<ContainerPortInfoView>) -> Seq<u32> {
    Seq::new(ports.len(), |i: int| ports[i].port)
}

fn push_container_ports(out: &mut Vec<ContainerPortInfo>, ports: &Vec<ContainerPort>)
    ensures
        final(out).deep_view() == old(out).deep_view() + Seq::new(
            ports.deep_view().len(),
            |i: int| shown_port(ports.deep_view()[i]),
        ),
{
    let ghost start = out.deep_view();
    let ghost views = ports.deep_view();
    let mut i: usize = 0;
    while i < ports.len()
        invariant
            i <= ports@.len(),
            views == ports.deep_view(),
            out.deep_view() == start + Seq::new(i as nat, |j: int| shown_port(views[j])),
        decreases ports.len() - i,
    {
        let p = &ports[i];
        let info = ContainerPortInfo {
            port: #[verifier::truncate] (p.container_port as u32),
            name: clone_opt_string(&p.name),
            protocol: clone_opt_string(&p.protocol),
        };
        let ghost before = out.deep_view();
        let ghost shown = info.deep_view();
        out.push(info);
        assert(out.deep_view() =~= before.push(shown));
        i += 1;
    }
}

/// Lists the ports that the containers of a pod declare.
pub fn container_port_infos(spec: &PodSpec) -> (infos: Vec<ContainerPortInfo>)
    ensures
        infos.deep_view() == container_ports(
            spec.deep_view().containers,
            spec.deep_view().containers.len(),
        ),
{
    let mut infos: Vec<ContainerPortInfo> = Vec::new();
    let ghost views = spec.containers.deep_view();
    let mut i: usize = 0;
    while i < spec.containers.len()
        invariant
            i <= spec.containers@.len(),
            views == spec.containers.deep_view(),
            infos.deep_view() == container_ports(views, i as nat),
        decreases spec.containers.len() - i,
    {
        let container = &spec.containers[i];
        match &container.ports {
            Some(ports) => {
                push_container_ports(&mut infos, ports);
            },
            None => {},
        }
        i += 1;
    }
    infos
}

fn numbers_of(infos: &Vec<ContainerPortInfo>) -> (r: Vec<u32>)
    ensures
        r.deep_view() == port_numbers(infos.deep_view()),
{
    let mut r: Vec<u32> = Vec::new();
    let mut i: usize = 0;
    while i < infos.len()
        invariant
            i <= infos@.len(),
            r@.len() == i,
            forall|j: int| 0 <= j < i ==> r@[j] == infos@[j].port,
        decreases infos.len() - i,
    {
        r.push(infos[i].port);
        i += 1;
    }
    r
}

// ---------------------------------------------------------------------------
// The attributes of an object

/// The attributes of an object that shows none.
pub open spec fn empty_metadata() -> ResourceMetadataView {
    ResourceMetadataView {
        hostnames: None,
        selectors: None,
        ports: None,
        port_mappings: None,
        target_ports: None,
        target_port_names: None,
        labels: None,
        phase: None,
        backend_refs: None,
        service_type: None,
        cluster_ips: None,
        external_ips: None,
        pod_ips: None,
        container_ports: None,
    }
}

/// A list as an attribute: absent where the list is empty.
pub open spec fn present<T>(list: Seq<T>) -> Option<Seq<T>> {
    if list.len() == 0 {
        None
    } else {
        Some(list)
    }
}

/// The attributes of a route: its host names and the services it refers to.
pub open spec fn route_metadata(spec: HTTPRouteSpecView) -> ResourceMetadataView {
    ResourceMetadataView {
        hostnames: match spec.hostnames {
            Some(hosts) => present(hosts),
            None => None,
        },
        backend_refs: present(service_backends(spec)),
        ..empty_metadata()
    }
}

/// The attributes of a service: its selector, ports, type and addresses.
pub open spec fn service_metadata(spec: ServiceSpecView) -> ResourceMetadataView {
    let info = match spec.ports {
        Some(ports) => Some(port_info(ports)),
        None => None,
    };
    ResourceMetadataView {
        selectors: spec.selector,
        ports: match info {
            Some(i) => Some(i.service_ports),
            None => None,
        },
        port_mappings: match info {
            Some(i) => Some(i.port_mappings),
            None => None,
        },
        target_ports: match info {
            Some(i) => Some(i.target_ports),
            None => None,
        },
        target_port_names: match info {
            Some(i) => Some(i.target_port_names),
            None => None,
        },
        service_type: spec.type_,
        cluster_ips: present(cluster_ip_list(spec)),
        external_ips: match spec.external_ips {
            Some(ips) => present(ips),
            None => None,
        },
        ..empty_metadata()
    }
}

/// The attributes that the description of a pod gives: its labels and the
/// ports of its containers.
pub open spec fn pod_metadata(
    labels: Option<Map<Seq<char>, Seq<char>>>,
    spec: Option<PodSpecView>,
) -> ResourceMetadataView {
    match spec {
        Some(s) => {
            let shown = container_ports(s.containers, s.containers.len());
            ResourceMetadataView {
                labels,
                ports: present(port_numbers(shown)),
                container_ports: present(shown),
                ..empty_metadata()
            }
        },
        None => ResourceMetadataView { labels, ..empty_metadata() },
    }
}

/// The attributes shown for an object of the given kind. A description of
/// another kind than the object's counts as none.
pub open spec fn extract_metadata(
    kind: ResourceKind,
    metadata: ObjectMetaView,
    spec: Option<ResourceSpecView>,
) -> ResourceMetadataView {
    match kind {
        ResourceKind::HTTPRoute => match spec {
            Some(ResourceSpecView::HTTPRoute(s)) => route_metadata(s),
            _ => empty_metadata(),
        },
        ResourceKind::Service => match spec {
            Some(ResourceSpecView::Service(s)) => service_metadata(s),
            _ => empty_metadata(),
        },
        ResourceKind::Pod => match spec {
            Some(ResourceSpecView::Pod(s)) => pod_metadata(metadata.labels, Some(s)),
            _ => pod_metadata(metadata.labels, None),
        },
        ResourceKind::Namespace => empty_metadata(),
    }
}

impl ResourceMetadata {
    /// The attributes of an object that shows none.
    pub fn empty() -> (r: Self)
        ensures
            r.deep_view() == empty_metadata(),
    {
        ResourceMetadata {
            hostnames: None,
            selectors: None,
            ports: None,
            port_mappings: None,
            target_ports: None,
            target_port_names: None,
            labels: None,
            phase: None,
            backend_refs: None,
            service_type: None,
            cluster_ips: None,
            external_ips: None,
            pod_ips: None,
            container_ports: None,
        }
    }
}

/// A list of strings as an attribute: absent where the list is empty.
pub fn present_strings(list: Vec<String>) -> (r: Option<Vec<String>>)
    ensures
        r.deep_view() == present(list.deep_view()),
{
    if list.len() == 0 {
        None
    } else {
        Some(list)
    }
}

fn route_attributes(spec: &HTTPRouteSpec) -> (r: ResourceMetadata)
    ensures
        r.deep_view() == route_metadata(spec.deep_view()),
{
    let mut r = ResourceMetadata::empty();
    r.hostnames = match &spec.hostnames {
        Some(hosts) => present_strings(clone_strings(hosts)),
        None => None,
    };
    r.backend_refs = present_strings(service_backend_names(spec));
    r
}

fn service_attributes(spec: &ServiceSpec) -> (r: ResourceMetadata)
    ensures
        r.deep_view() == service_metadata(spec.deep_view()),
{
    let mut r = ResourceMetadata::empty();
    r.selectors = clone_opt(&spec.selector);
    match &spec.ports {
        Some(ports) => {
            let info = extract_port_info(ports);
            r.ports = Some(info.service_ports);
            r.port_mappings = Some(info.port_mappings);
            r.target_ports = Some(info.target_ports);
            r.target_port_names = Some(info.target_port_names);
        },
        None => {},
    }
    r.service_type = clone_opt_string(&spec.type_);
    r.cluster_ips = present_strings(cluster_ips_of(spec));
    r.external_ips = match &spec.external_ips {
        Some(ips) => present_strings(clone_strings(ips)),
        None => None,
    };
    r
}

fn pod_attributes(labels: &Option<Labels>, spec: Option<&PodSpec>) -> (r: ResourceMetadata)
    ensures
        r.deep_view() == pod_metadata(labels.deep_view(), spec.deep_view()),
{
    let mut r = ResourceMetadata::empty();
    r.labels = clone_opt(labels);
    match spec {
        Some(s) => {
            let infos = container_port_infos(s);
            let numbers = numbers_of(&infos);
            r.ports = if numbers.len() == 0 {
                None
            } else {
                Some(numbers)
            };
            r.container_ports = if infos.len() == 0 {
                None
            } else {
                Some(infos)
            };
        },
        None => {},
    }
    r
}

/// Reads the attributes to show for an object off its identifying part and
/// its description.
pub fn extract_resource_metadata(
    kind: &ResourceKind,
    metadata: &ObjectMeta,
    spec: &Option<ResourceSpec>,
) -> (r: ResourceMetadata)
    ensures
        r.deep_view() == extract_metadata(*kind, metadata.deep_view(), spec.deep_view()),
{
    match kind {
        ResourceKind::HTTPRoute => match spec {
            Some(ResourceSpec::HTTPRoute(s)) => route_attributes(s),
            _ => ResourceMetadata::empty(),
        },
        ResourceKind::Service => match spec {
            Some(ResourceSpec::Service(s)) => service_attributes(s),
            _ => ResourceMetadata::empty(),
        },
        ResourceKind::Pod => match spec {
            Some(ResourceSpec::Pod(s)) => pod_attributes(&metadata.labels, Some(s)),
            _ => pod_attributes(&metadata.labels, None),
        },
        ResourceKind::Namespace => ResourceMetadata::empty(),
    }
}

} // verus!
