use constellation::labels::{selectors_match, Labels};
use constellation::metadata::{
    cluster_ips_of, contains_text, extract_load_balancer_ips, extract_resource_metadata,
    pod_ips_of, service_backend_names,
};
use constellation::node::{
    new_httproute, new_namespace, new_placeholder_namespace, new_pod, new_service, HierarchyNode,
    ResourceKind, ResourceSpec,
};
use constellation::objects::{
    HTTPBackendRef, HTTPRoute, HTTPRouteRule, HTTPRouteSpec, IntOrString, LoadBalancerIngress,
    LoadBalancerStatus, Namespace, ObjectMeta, Pod, PodStatus, Service, ServicePort, ServiceSpec,
    ServiceStatus,
};
use constellation::publish::{
    current_tree, first_step, health_message, is_ready, name_comes_first, next_step,
    sort_by_name, Received, StreamStep,
};
use constellation::events::WatchEvent;
use constellation::rules::{route_references, service_selects};
use constellation::store::State;
use constellation::text::{i32_to_decimal, opt_str_eq, str_eq, u64_to_decimal};

fn labels(pairs: &[(&str, &str)]) -> Labels {
    let mut l = Labels::new();
    for (k, v) in pairs {
        l.insert(k.to_string(), v.to_string());
    }
    l
}

fn meta(name: &str, ns: &str) -> ObjectMeta {
    ObjectMeta { name: Some(name.to_string()), namespace: Some(ns.to_string()), labels: None }
}

fn root(name: &str) -> HierarchyNode {
    new_namespace(&Namespace {
        metadata: ObjectMeta { name: Some(name.to_string()), namespace: None, labels: None },
    })
}

fn names(nodes: &[HierarchyNode]) -> Vec<String> {
    nodes.iter().map(|n| n.name.clone()).collect()
}

#[test]
fn decimal_text_of_numbers() {
    assert_eq!(i32_to_decimal(0), "0");
    assert_eq!(i32_to_decimal(7), "7");
    assert_eq!(i32_to_decimal(80), "80");
    assert_eq!(i32_to_decimal(65535), "65535");
    assert_eq!(i32_to_decimal(-1), "-1");
    assert_eq!(i32_to_decimal(-120), "-120");
    assert_eq!(i32_to_decimal(i32::MAX), "2147483647");
    assert_eq!(i32_to_decimal(i32::MIN), "-2147483648");
    assert_eq!(u64_to_decimal(10), "10");
    assert_eq!(u64_to_decimal(u64::MAX), "18446744073709551615");
}

#[test]
fn comparing_text() {
    assert!(str_eq("", ""));
    assert!(str_eq("abc", "abc"));
    assert!(!str_eq("abc", "abd"));
    assert!(!str_eq("abc", "ab"));
    assert!(str_eq("na\u{ef}ve\u{2192}", "na\u{ef}ve\u{2192}"));
    assert!(opt_str_eq(None, None));
    assert!(opt_str_eq(Some("a"), Some("a")));
    assert!(!opt_str_eq(Some("a"), None));
    assert!(!opt_str_eq(None, Some("")));
}

#[test]
fn labels_behave_as_a_map() {
    let mut l = Labels::new();
    assert!(l.is_empty());
    assert_eq!(l.get("app"), None);
    l.insert("app".to_string(), "web".to_string());
    l.insert("env".to_string(), "prod".to_string());
    l.insert("app".to_string(), "api".to_string());
    assert!(!l.is_empty());
    assert_eq!(l.get("app"), Some(&"api".to_string()));
    assert_eq!(l.get("env"), Some(&"prod".to_string()));
    assert_eq!(l.get("zone"), None);
    assert_eq!(l.entries.len(), 2);
    assert_eq!(l.clone(), l);
}

#[test]
fn an_empty_selector_selects_nothing() {
    let none = Labels::new();
    let some = labels(&[("app", "web")]);
    assert!(!selectors_match(&none, &some));
    assert!(!selectors_match(&none, &none));
    assert!(!selectors_match(&some, &none));
    assert!(selectors_match(&some, &some));
    let pod = Pod { metadata: ObjectMeta { labels: Some(some), ..meta("p", "ns") }, ..Default::default() };
    let open = Service {
        metadata: meta("s", "ns"),
        spec: Some(ServiceSpec { selector: Some(none), ..Default::default() }),
        status: None,
    };
    assert!(!service_selects(&open, &pod));
}

#[test]
fn service_selects_by_labels_within_its_namespace() {
    let svc = Service {
        metadata: meta("s", "ns"),
        spec: Some(ServiceSpec {
            selector: Some(labels(&[("app", "web"), ("tier", "front")])),
            ..Default::default()
        }),
        status: None,
    };
    let pod = |ns: &str, pairs: &[(&str, &str)]| Pod {
        metadata: ObjectMeta { labels: Some(labels(pairs)), ..meta("p", ns) },
        ..Default::default()
    };
    assert!(service_selects(&svc, &pod("ns", &[("tier", "front"), ("app", "web"), ("x", "y")])));
    assert!(!service_selects(&svc, &pod("ns", &[("app", "web")])));
    assert!(!service_selects(&svc, &pod("ns", &[("app", "web"), ("tier", "back")])));
    assert!(!service_selects(&svc, &pod("other", &[("app", "web"), ("tier", "front")])));
    let unlabelled = Pod { metadata: meta("p", "ns"), ..Default::default() };
    assert!(!service_selects(&svc, &unlabelled));
    let specless = Service { metadata: meta("s", "ns"), spec: None, status: None };
    assert!(!service_selects(&specless, &pod("ns", &[("app", "web")])));
}

fn route_to(ns: &str, refs: &[(Option<&str>, &str)]) -> HTTPRoute {
    HTTPRoute {
        metadata: meta("r", ns),
        spec: HTTPRouteSpec {
            hostnames: None,
            rules: Some(vec![
                HTTPRouteRule { backend_refs: None },
                HTTPRouteRule {
                    backend_refs: Some(
                        refs.iter()
                            .map(|(kind, name)| HTTPBackendRef {
                                kind: kind.map(|k| k.to_string()),
                                name: name.to_string(),
                            })
                            .collect(),
                    ),
                },
            ]),
        },
    }
}

#[test]
fn route_refers_by_kind_and_name_within_its_namespace() {
    let svc = |ns: &str, name: &str| Service { metadata: meta(name, ns), spec: None, status: None };
    let r = route_to("ns", &[(Some("Service"), "a"), (Some("Secret"), "b"), (None, "c")]);
    assert!(route_references(&r, &svc("ns", "a")));
    assert!(!route_references(&r, &svc("ns", "b")));
    assert!(!route_references(&r, &svc("ns", "c")));
    assert!(!route_references(&r, &svc("other", "a")));
    assert_eq!(service_backend_names(&r.spec), vec!["a".to_string()]);
    let ruleless = HTTPRoute { metadata: meta("r", "ns"), spec: HTTPRouteSpec::default() };
    assert!(!route_references(&ruleless, &svc("ns", "a")));
}

#[test]
fn route_attributes() {
    let r = route_to("ns", &[(Some("Service"), "a"), (Some("Service"), "b"), (Some("Pod"), "c")]);
    let node = new_httproute(&r);
    assert_eq!(node.kind, ResourceKind::HTTPRoute);
    assert_eq!(node.name, "r");
    assert_eq!(node.resource_metadata.hostnames, None);
    assert_eq!(node.resource_metadata.backend_refs, Some(vec!["a".to_string(), "b".to_string()]));
    let mut hostless = route_to("ns", &[]);
    hostless.spec.hostnames = Some(vec![]);
    let node = new_httproute(&hostless);
    assert_eq!(node.resource_metadata.hostnames, None);
    assert_eq!(node.resource_metadata.backend_refs, None);
}

#[test]
fn cluster_addresses_are_listed_once() {
    let spec = ServiceSpec {
        cluster_ip: Some("10.0.0.1".to_string()),
        cluster_ips: Some(vec![
            "10.0.0.1".to_string(),
            "".to_string(),
            "None".to_string(),
            "fd00::1".to_string(),
            "fd00::1".to_string(),
        ]),
        ..Default::default()
    };
    assert_eq!(cluster_ips_of(&spec), vec!["10.0.0.1".to_string(), "fd00::1".to_string()]);
    let headless = ServiceSpec { cluster_ip: Some("None".to_string()), ..Default::default() };
    assert!(cluster_ips_of(&headless).is_empty());
    let meta = meta("s", "ns");
    let attrs = extract_resource_metadata(
        &ResourceKind::Service,
        &meta,
        &Some(ResourceSpec::Service(Box::new(headless))),
    );
    assert_eq!(attrs.cluster_ips, None);
    assert_eq!(attrs.ports, None);
    assert_eq!(attrs.external_ips, None);
}

#[test]
fn external_addresses_come_from_the_load_balancer_where_it_has_any() {
    let mut svc = Service {
        metadata: meta("s", "ns"),
        spec: Some(ServiceSpec {
            external_ips: Some(vec!["1.2.3.4".to_string()]),
            type_: Some("LoadBalancer".to_string()),
            ..Default::default()
        }),
        status: None,
    };
    assert!(extract_load_balancer_ips(&svc).is_empty());
    assert_eq!(new_service(&svc).resource_metadata.external_ips, Some(vec!["1.2.3.4".to_string()]));
    svc.status = Some(ServiceStatus { load_balancer: Some(LoadBalancerStatus { ingress: None }) });
    assert!(extract_load_balancer_ips(&svc).is_empty());
    svc.status = Some(ServiceStatus {
        load_balancer: Some(LoadBalancerStatus {
            ingress: Some(vec![
                LoadBalancerIngress { ip: Some("5.6.7.8".to_string()), hostname: Some("lb".to_string()) },
                LoadBalancerIngress { ip: None, hostname: Some("lb.example.com".to_string()) },
                LoadBalancerIngress { ip: None, hostname: None },
            ]),
        }),
    });
    let want = vec!["5.6.7.8".to_string(), "lb.example.com".to_string()];
    assert_eq!(extract_load_balancer_ips(&svc), want);
    let node = new_service(&svc);
    assert_eq!(node.resource_metadata.external_ips, Some(want));
    assert_eq!(node.resource_metadata.service_type, Some("LoadBalancer".to_string()));
    svc.spec.as_mut().unwrap().external_ips = Some(vec![]);
    svc.status = None;
    assert_eq!(new_service(&svc).resource_metadata.external_ips, None);
}

#[test]
fn pod_addresses_and_phase() {
    let status = PodStatus {
        phase: Some("Pending".to_string()),
        pod_ip: Some("10.1.0.5".to_string()),
        pod_ips: Some(vec!["10.1.0.5".to_string(), "".to_string(), "fd00::5".to_string()]),
    };
    assert_eq!(pod_ips_of(&status), vec!["10.1.0.5".to_string(), "fd00::5".to_string()]);
    let pod = Pod { metadata: meta("p", "ns"), spec: None, status: Some(status) };
    let node = new_pod(&pod);
    assert_eq!(node.resource_metadata.phase, Some("Pending".to_string()));
    assert_eq!(
        node.resource_metadata.pod_ips,
        Some(vec!["10.1.0.5".to_string(), "fd00::5".to_string()])
    );
    assert_eq!(node.resource_metadata.labels, None);
    assert_eq!(node.resource_metadata.ports, None);
    assert_eq!(node.spec, None);
    let bare = new_pod(&Pod { metadata: meta("p", "ns"), spec: None, status: None });
    assert_eq!(bare.resource_metadata.phase, None);
    assert_eq!(bare.resource_metadata.pod_ips, None);
    let nameless = new_pod(&Pod::default());
    assert_eq!(nameless.name, "");
}

#[test]
fn attributes_of_a_mismatched_description_are_empty() {
    let m = meta("x", "ns");
    let spec = Some(ResourceSpec::HTTPRoute(HTTPRouteSpec {
        hostnames: Some(vec!["h".to_string()]),
        rules: None,
    }));
    let as_service = extract_resource_metadata(&ResourceKind::Service, &m, &spec);
    assert_eq!(as_service.hostnames, None);
    assert_eq!(as_service.selectors, None);
    let as_namespace = extract_resource_metadata(&ResourceKind::Namespace, &m, &spec);
    assert_eq!(as_namespace.hostnames, None);
    let as_route = extract_resource_metadata(&ResourceKind::HTTPRoute, &m, &None);
    assert_eq!(as_route.hostnames, None);
}

#[test]
fn negative_and_large_ports() {
    let ports = vec![
        ServicePort { port: -1, target_port: None, name: None },
        ServicePort { port: 8080, target_port: Some(IntOrString::Int(-2)), name: None },
    ];
    let info = constellation::metadata::extract_port_info(&ports);
    assert_eq!(info.service_ports, vec![u32::MAX, 8080]);
    assert_eq!(info.port_mappings, vec!["-1", "8080\u{2192}-2"]);
    assert_eq!(info.target_ports, vec![u32::MAX, u32::MAX - 1]);
}

#[test]
fn kinds_are_named() {
    assert_eq!(ResourceKind::Namespace.to_string(), "Namespace");
    assert_eq!(ResourceKind::Service.to_string(), "Service");
    assert_eq!(ResourceKind::Pod.to_string(), "Pod");
    assert_eq!(ResourceKind::HTTPRoute.to_string(), "HTTPRoute");
    assert_eq!(ResourceKind::HTTPRoute.as_str(), "HTTPRoute");
}

#[test]
fn placeholder_root_is_a_bare_namespace() {
    let node = new_placeholder_namespace("ns1");
    assert_eq!(node, root("ns1"));
    assert_eq!(node.kind, ResourceKind::Namespace);
    assert_eq!(node.spec, Some(ResourceSpec::Namespace(())));
    assert!(node.relatives.is_empty());
}

#[test]
fn lists_hold_text() {
    let list = vec!["a".to_string(), "bc".to_string()];
    assert!(contains_text(&list, "bc"));
    assert!(!contains_text(&list, "b"));
    assert!(!contains_text(&vec![], ""));
}

#[test]
fn names_are_ordered_by_their_bytes() {
    assert!(name_comes_first("", ""));
    assert!(name_comes_first("", "a"));
    assert!(!name_comes_first("a", ""));
    assert!(name_comes_first("a", "a"));
    assert!(name_comes_first("a", "b"));
    assert!(!name_comes_first("b", "a"));
    assert!(name_comes_first("ab", "abc"));
    assert!(!name_comes_first("abc", "ab"));
    assert!(name_comes_first("Z", "a"));
    assert!(name_comes_first("z", "\u{e9}"));
    assert!(name_comes_first("kube-system", "kube_system"));
}

#[test]
fn roots_are_sorted_by_name_and_equal_names_keep_their_order() {
    let mut first = root("default");
    first.metadata.labels = Some(labels(&[("seen", "first")]));
    let mut second = root("default");
    second.metadata.labels = Some(labels(&[("seen", "second")]));
    let forest = vec![root("web"), first.clone(), root("kube-system"), second.clone(), root("app")];
    let sorted = sort_by_name(forest.clone());
    assert_eq!(names(&sorted), vec!["app", "default", "default", "kube-system", "web"]);
    assert_eq!(sorted[1], first);
    assert_eq!(sorted[2], second);
    let mut expected = forest.clone();
    expected.sort_by(|a, b| a.name.cmp(&b.name));
    assert_eq!(sorted, expected);
    assert_eq!(current_tree(&forest), expected);
    assert_eq!(forest.len(), 5);
    assert!(sort_by_name(vec![]).is_empty());
}

#[test]
fn readiness_follows_the_forest() {
    assert!(!is_ready(&vec![]));
    assert!(is_ready(&vec![root("ns1")]));
    assert_eq!(health_message(false), "waiting for kubernetes resources");
    assert_eq!(health_message(true), "ready");
}

#[test]
fn subscribers_get_the_latest_forest() {
    let current = vec![root("b"), root("a")];
    let sorted_current = vec![root("a"), root("b")];
    assert_eq!(first_step(&current), StreamStep::Send(sorted_current.clone()));
    let published = vec![root("z"), root("y"), root("x")];
    assert_eq!(
        next_step(Received::Update(published), &current),
        StreamStep::Send(vec![root("x"), root("y"), root("z")])
    );
    assert_eq!(next_step(Received::Lagged(3), &current), StreamStep::Send(sorted_current));
    assert_eq!(next_step(Received::Closed, &current), StreamStep::Stop);
}

#[test]
fn store_takes_events_and_publishes() {
    let mut state = State::default();
    assert!(!state.is_ready());
    assert!(state.current_tree().is_empty());
    let ns = |name: &str| Namespace {
        metadata: ObjectMeta { name: Some(name.to_string()), namespace: None, labels: None },
    };
    let published =
        state.on_namespace_event(&WatchEvent::Apply(ns("web")), &vec![], &vec![], &vec![]);
    assert_eq!(published, Some(vec![root("web")]));
    let published =
        state.on_namespace_event(&WatchEvent::Apply(ns("app")), &vec![], &vec![], &vec![]);
    assert_eq!(published, Some(vec![root("app"), root("web")]));
    assert_eq!(names(&state.hierarchy), vec!["web", "app"]);
    assert!(state.is_ready());
    assert_eq!(state.on_pod_event(&WatchEvent::Init), None);
    let pod = Pod { metadata: meta("p", "app"), ..Default::default() };
    let published = state.on_pod_event(&WatchEvent::Apply(pod.clone())).unwrap();
    assert_eq!(names(&published), vec!["app", "web"]);
    assert_eq!(names(&published[0].relatives), vec!["p"]);
    assert_eq!(state.on_pod_event(&WatchEvent::Apply(Pod::default())), None);
    let svc = Service { metadata: meta("s", "web"), spec: None, status: None };
    let published = state.on_service_event(&WatchEvent::Apply(svc.clone()), &vec![pod]).unwrap();
    assert_eq!(names(&published[1].relatives), vec!["s"]);
    let route = HTTPRoute { metadata: meta("r", "web"), spec: HTTPRouteSpec::default() };
    let published =
        state.on_httproute_event(&WatchEvent::Apply(route), &vec![svc], &vec![]).unwrap();
    assert_eq!(names(&published[1].relatives), vec!["s", "r"]);
    assert_eq!(state.clone(), state);

    let mut loaded = State::new();
    loaded.load(&vec![ns("b"), ns("a")], &vec![], &vec![], &vec![]);
    assert_eq!(names(&loaded.hierarchy), vec!["b", "a"]);
    assert_eq!(names(&loaded.current_tree()), vec!["a", "b"]);
}
