use constellation::events::{
    handle_httproute_event, handle_namespace_event, handle_pod_event, handle_service_event,
    WatchEvent,
};
use constellation::labels::Labels;
use constellation::node::{HierarchyNode, ResourceKind};
use constellation::objects::{
    HTTPBackendRef, HTTPRoute, HTTPRouteRule, HTTPRouteSpec, Namespace, ObjectMeta, Pod, PodSpec,
    PodStatus, Service, ServicePort, ServiceSpec,
};
use constellation::reconcile::{
    add_pod_to_matching_services, build_initial_relationships, delete_httproute,
    delete_namespace, delete_pod, delete_service, first_matching_service,
    update_httproute_relationships, update_namespace_relationships, update_pod_relationships,
    update_service_relationships,
};
use constellation::tree::contains_object;

fn labels(pairs: &[(&str, &str)]) -> Labels {
    let mut l = Labels::new();
    for (k, v) in pairs {
        l.insert(k.to_string(), v.to_string());
    }
    l
}

fn namespace(name: &str) -> Namespace {
    Namespace { metadata: ObjectMeta { name: Some(name.to_string()), namespace: None, labels: None } }
}

fn pod(name: &str, ns: &str, pairs: &[(&str, &str)]) -> Pod {
    Pod {
        metadata: ObjectMeta {
            name: Some(name.to_string()),
            namespace: Some(ns.to_string()),
            labels: Some(labels(pairs)),
        },
        spec: Some(PodSpec { containers: vec![] }),
        status: Some(PodStatus { phase: Some("Running".to_string()), ..Default::default() }),
    }
}

fn service(name: &str, ns: &str, selector: &[(&str, &str)]) -> Service {
    Service {
        metadata: ObjectMeta {
            name: Some(name.to_string()),
            namespace: Some(ns.to_string()),
            labels: None,
        },
        spec: Some(ServiceSpec {
            selector: Some(labels(selector)),
            ports: Some(vec![ServicePort { port: 80, ..Default::default() }]),
            ..Default::default()
        }),
        status: None,
    }
}

fn route(name: &str, ns: &str, backends: &[&str]) -> HTTPRoute {
    HTTPRoute {
        metadata: ObjectMeta {
            name: Some(name.to_string()),
            namespace: Some(ns.to_string()),
            labels: None,
        },
        spec: HTTPRouteSpec {
            hostnames: Some(vec!["example.com".to_string()]),
            rules: Some(vec![HTTPRouteRule {
                backend_refs: Some(
                    backends
                        .iter()
                        .map(|b| HTTPBackendRef {
                            kind: Some("Service".to_string()),
                            name: b.to_string(),
                        })
                        .collect(),
                ),
            }]),
        },
    }
}

/// The tree as nested names, such as `ns1[svc1[pod1]]`.
fn shape(nodes: &[HierarchyNode]) -> String {
    let mut parts = Vec::new();
    for n in nodes {
        if n.relatives.is_empty() {
            parts.push(n.name.clone());
        } else {
            parts.push(format!("{}[{}]", n.name, shape(&n.relatives)));
        }
    }
    parts.join(",")
}

fn occurrences(nodes: &[HierarchyNode], kind: ResourceKind, name: &str) -> usize {
    let mut n = 0;
    for node in nodes {
        if node.kind == kind && node.name == name {
            n += 1;
        }
        n += occurrences(&node.relatives, kind, name);
    }
    n
}

fn service_with_pod() -> (Vec<HierarchyNode>, Vec<Service>, Vec<Pod>) {
    let mut tree = Vec::new();
    update_namespace_relationships(&mut tree, &namespace("ns1"), &vec![], &vec![], &vec![]);
    let svc1 = service("svc1", "ns1", &[("app", "web")]);
    update_service_relationships(&mut tree, &svc1, &vec![]);
    assert_eq!(shape(&tree), "ns1[svc1]");
    let pod1 = pod("pod1", "ns1", &[("app", "web")]);
    update_pod_relationships(&mut tree, &pod1);
    (tree, vec![svc1], vec![pod1])
}

#[test]
fn matching_pod_goes_under_its_service() {
    let (tree, _, _) = service_with_pod();
    assert_eq!(shape(&tree), "ns1[svc1[pod1]]");
    assert_eq!(tree[0].kind, ResourceKind::Namespace);
    assert_eq!(tree[0].relatives[0].kind, ResourceKind::Service);
    assert_eq!(tree[0].relatives[0].relatives[0].kind, ResourceKind::Pod);
}

#[test]
fn route_takes_service_from_namespace() {
    let (mut tree, services, pods) = service_with_pod();
    let r1 = route("r1", "ns1", &["svc1"]);
    update_httproute_relationships(&mut tree, &r1, &services, &pods);
    assert_eq!(shape(&tree), "ns1[r1[svc1[pod1]]]");
    assert_eq!(occurrences(&tree, ResourceKind::Service, "svc1"), 1);
}

#[test]
fn deleting_service_drops_its_pods() {
    let (mut tree, services, pods) = service_with_pod();
    let r1 = route("r1", "ns1", &["svc1"]);
    update_httproute_relationships(&mut tree, &r1, &services, &pods);
    delete_service(&mut tree, &services[0]);
    assert_eq!(shape(&tree), "ns1[r1]");
    assert_eq!(occurrences(&tree, ResourceKind::Pod, "pod1"), 0);
}

#[test]
fn unselected_pod_goes_under_namespace() {
    let mut tree = Vec::new();
    update_namespace_relationships(&mut tree, &namespace("ns1"), &vec![], &vec![], &vec![]);
    update_service_relationships(&mut tree, &service("svc1", "ns1", &[("app", "web")]), &vec![]);
    update_pod_relationships(&mut tree, &pod("lonely", "ns1", &[("app", "db")]));
    assert_eq!(shape(&tree), "ns1[svc1,lonely]");
}

#[test]
fn pod_without_namespace_root_stays_out_until_namespace_arrives() {
    let mut tree = Vec::new();
    let p = pod("early", "ns1", &[("app", "web")]);
    update_pod_relationships(&mut tree, &p);
    assert!(tree.is_empty());
    update_namespace_relationships(&mut tree, &namespace("ns1"), &vec![], &vec![], &vec![p]);
    assert_eq!(shape(&tree), "ns1[early]");
}

#[test]
fn service_without_namespace_root_gets_placeholder() {
    let mut tree = Vec::new();
    let svc = service("svc1", "ns1", &[("app", "web")]);
    update_service_relationships(&mut tree, &svc, &vec![]);
    assert_eq!(shape(&tree), "ns1[svc1]");
    assert_eq!(tree[0].kind, ResourceKind::Namespace);
    assert_eq!(tree[0].metadata.name, Some("ns1".to_string()));
    assert_eq!(tree[0].metadata.labels, None);
    // The namespace itself arrives: the root is made anew and keeps the service.
    let mut real = namespace("ns1");
    real.metadata.labels = Some(labels(&[("team", "a")]));
    update_namespace_relationships(&mut tree, &real, &vec![], &vec![svc], &vec![]);
    assert_eq!(shape(&tree), "ns1[svc1]");
    assert_eq!(tree.len(), 1);
    assert_eq!(tree[0].metadata.labels, Some(labels(&[("team", "a")])));
}

#[test]
fn route_without_namespace_root_stays_out() {
    let mut tree = Vec::new();
    update_httproute_relationships(&mut tree, &route("r1", "ns1", &[]), &vec![], &vec![]);
    assert!(tree.is_empty());
}

#[test]
fn objects_without_name_or_namespace_are_dropped() {
    let (mut tree, services, pods) = service_with_pod();
    let before = shape(&tree);
    let mut nameless = pod("x", "ns1", &[("app", "web")]);
    nameless.metadata.name = None;
    update_pod_relationships(&mut tree, &nameless);
    let mut homeless = service("svc9", "ns1", &[("app", "web")]);
    homeless.metadata.namespace = None;
    update_service_relationships(&mut tree, &homeless, &pods);
    let mut anonymous = route("r9", "ns1", &["svc1"]);
    anonymous.metadata.name = None;
    update_httproute_relationships(&mut tree, &anonymous, &services, &pods);
    update_namespace_relationships(
        &mut tree,
        &Namespace { metadata: ObjectMeta::default() },
        &vec![],
        &services,
        &pods,
    );
    delete_pod(&mut tree, &nameless);
    delete_namespace(&mut tree, &Namespace { metadata: ObjectMeta::default() });
    assert_eq!(shape(&tree), before);
    assert!(!handle_pod_event(&mut tree, &WatchEvent::Apply(nameless)));
}

#[test]
fn empty_or_absent_selector_selects_nothing() {
    let mut tree = Vec::new();
    update_namespace_relationships(&mut tree, &namespace("ns1"), &vec![], &vec![], &vec![]);
    let p = pod("pod1", "ns1", &[("app", "web")]);
    let open = service("open", "ns1", &[]);
    let mut bare = service("bare", "ns1", &[]);
    bare.spec.as_mut().unwrap().selector = None;
    update_service_relationships(&mut tree, &open, &vec![p.clone()]);
    update_service_relationships(&mut tree, &bare, &vec![p.clone()]);
    update_pod_relationships(&mut tree, &p);
    assert_eq!(shape(&tree), "ns1[open,bare,pod1]");
}

#[test]
fn selection_stays_within_the_namespace() {
    let mut tree = Vec::new();
    update_namespace_relationships(&mut tree, &namespace("ns1"), &vec![], &vec![], &vec![]);
    update_namespace_relationships(&mut tree, &namespace("ns2"), &vec![], &vec![], &vec![]);
    let foreign = pod("pod2", "ns2", &[("app", "web")]);
    update_service_relationships(
        &mut tree,
        &service("svc1", "ns1", &[("app", "web")]),
        &vec![foreign.clone()],
    );
    update_pod_relationships(&mut tree, &foreign);
    assert_eq!(shape(&tree), "ns1[svc1],ns2[pod2]");
}

#[test]
fn pod_matching_two_services_goes_under_the_first() {
    let mut tree = Vec::new();
    update_namespace_relationships(&mut tree, &namespace("ns1"), &vec![], &vec![], &vec![]);
    update_service_relationships(&mut tree, &service("a", "ns1", &[("app", "web")]), &vec![]);
    update_service_relationships(&mut tree, &service("b", "ns1", &[("tier", "front")]), &vec![]);
    let p = pod("pod1", "ns1", &[("app", "web"), ("tier", "front")]);
    update_pod_relationships(&mut tree, &p);
    assert_eq!(occurrences(&tree, ResourceKind::Pod, "pod1"), 1);
    assert_eq!(shape(&tree), "ns1[a[pod1],b]");
    // Applying the second service moves the pod; it still stands once.
    update_service_relationships(
        &mut tree,
        &service("b", "ns1", &[("tier", "front")]),
        &vec![p.clone()],
    );
    assert_eq!(occurrences(&tree, ResourceKind::Pod, "pod1"), 1);
    assert_eq!(shape(&tree), "ns1[a,b[pod1]]");
}

#[test]
fn service_under_two_routes_is_copied_with_its_pods() {
    let (mut tree, services, pods) = service_with_pod();
    update_httproute_relationships(&mut tree, &route("r1", "ns1", &["svc1"]), &services, &pods);
    update_httproute_relationships(&mut tree, &route("r2", "ns1", &["svc1"]), &services, &pods);
    assert_eq!(shape(&tree), "ns1[r1[svc1[pod1]],r2[svc1[pod1]]]");
    assert_eq!(tree[0].relatives[0].relatives[0], tree[0].relatives[1].relatives[0]);
    // A pod applied afterwards stands under every copy, as before.
    let before = tree.clone();
    update_pod_relationships(&mut tree, &pods[0]);
    assert_eq!(occurrences(&tree, ResourceKind::Pod, "pod1"), 2);
    assert_eq!(shape(&tree), "ns1[r1[svc1[pod1]],r2[svc1[pod1]]]");
    assert_eq!(tree, before);
    // A second pod of the service joins every copy, behind the first.
    update_pod_relationships(&mut tree, &pod("pod2", "ns1", &[("app", "web")]));
    assert_eq!(shape(&tree), "ns1[r1[svc1[pod1,pod2]],r2[svc1[pod1,pod2]]]");
    assert_eq!(tree[0].relatives[0].relatives[0], tree[0].relatives[1].relatives[0]);
}

#[test]
fn references_to_other_kinds_are_ignored() {
    let (mut tree, services, pods) = service_with_pod();
    let mut r = route("r1", "ns1", &["svc1"]);
    r.spec.rules.as_mut().unwrap()[0].backend_refs.as_mut().unwrap()[0].kind =
        Some("ConfigMap".to_string());
    update_httproute_relationships(&mut tree, &r, &services, &pods);
    assert_eq!(shape(&tree), "ns1[svc1[pod1],r1]");
    let mut kindless = route("r1", "ns1", &["svc1"]);
    kindless.spec.rules.as_mut().unwrap()[0].backend_refs.as_mut().unwrap()[0].kind = None;
    update_httproute_relationships(&mut tree, &kindless, &services, &pods);
    assert_eq!(shape(&tree), "ns1[svc1[pod1],r1]");
}

#[test]
fn deleting_a_route_drops_what_stood_under_it() {
    let (mut tree, services, pods) = service_with_pod();
    let r1 = route("r1", "ns1", &["svc1"]);
    update_httproute_relationships(&mut tree, &r1, &services, &pods);
    delete_httproute(&mut tree, &r1);
    assert_eq!(shape(&tree), "ns1");
    // The service comes back when it is next applied.
    update_service_relationships(&mut tree, &services[0], &pods);
    assert_eq!(shape(&tree), "ns1[svc1[pod1]]");
}

#[test]
fn deleting_a_namespace_drops_its_whole_tree() {
    let (mut tree, _, _) = service_with_pod();
    update_namespace_relationships(&mut tree, &namespace("ns2"), &vec![], &vec![], &vec![]);
    delete_namespace(&mut tree, &namespace("ns1"));
    assert_eq!(shape(&tree), "ns2");
    delete_namespace(&mut tree, &namespace("ns2"));
    assert!(tree.is_empty());
}

#[test]
fn deleting_a_pod_removes_it_everywhere() {
    let (mut tree, services, pods) = service_with_pod();
    update_httproute_relationships(&mut tree, &route("r1", "ns1", &["svc1"]), &services, &pods);
    update_httproute_relationships(&mut tree, &route("r2", "ns1", &["svc1"]), &services, &pods);
    delete_pod(&mut tree, &pods[0]);
    assert_eq!(shape(&tree), "ns1[r1[svc1],r2[svc1]]");
    assert!(!contains_object(&tree, ResourceKind::Pod, "pod1", Some("ns1")));
    assert!(contains_object(&tree, ResourceKind::Service, "svc1", Some("ns1")));
    assert!(!contains_object(&tree, ResourceKind::Service, "svc1", Some("ns2")));
}

#[test]
fn uniqueness_holds_after_a_run_of_notifications() {
    let mut tree = Vec::new();
    let pods = vec![
        pod("web-a", "ns1", &[("app", "web")]),
        pod("web-b", "ns1", &[("app", "web")]),
        pod("db-a", "ns1", &[("app", "db")]),
    ];
    let services =
        vec![service("web", "ns1", &[("app", "web")]), service("db", "ns1", &[("app", "db")])];
    let routes = vec![route("r1", "ns1", &["web"])];
    for p in &pods {
        update_pod_relationships(&mut tree, p);
    }
    update_namespace_relationships(&mut tree, &namespace("ns1"), &routes, &services, &pods);
    assert_eq!(shape(&tree), "ns1[r1[web[web-a,web-b]],db[db-a]]");
    for _ in 0..2 {
        for s in &services {
            update_service_relationships(&mut tree, s, &pods);
        }
        for p in &pods {
            update_pod_relationships(&mut tree, p);
        }
        for r in &routes {
            update_httproute_relationships(&mut tree, r, &services, &pods);
        }
    }
    for name in ["web-a", "web-b", "db-a"] {
        assert_eq!(occurrences(&tree, ResourceKind::Pod, name), 1);
    }
    for name in ["web", "db"] {
        assert_eq!(occurrences(&tree, ResourceKind::Service, name), 1);
    }
    assert_eq!(occurrences(&tree, ResourceKind::HTTPRoute, "r1"), 1);
    assert_eq!(occurrences(&tree, ResourceKind::Namespace, "ns1"), 1);
    assert_eq!(tree.len(), 1);
}

#[test]
fn selector_correctness_on_service_apply() {
    let mut tree = Vec::new();
    update_namespace_relationships(&mut tree, &namespace("ns1"), &vec![], &vec![], &vec![]);
    let pods = vec![
        pod("web-a", "ns1", &[("app", "web"), ("env", "prod")]),
        pod("api-a", "ns1", &[("app", "api")]),
        pod("web-b", "ns1", &[("app", "web")]),
        pod("web-c", "ns2", &[("app", "web")]),
    ];
    update_service_relationships(&mut tree, &service("web", "ns1", &[("app", "web")]), &pods);
    assert_eq!(shape(&tree), "ns1[web[web-a,web-b]]");
}

#[test]
fn reference_correctness_on_route_and_service_apply() {
    let mut tree = Vec::new();
    update_namespace_relationships(&mut tree, &namespace("ns1"), &vec![], &vec![], &vec![]);
    let services = vec![
        service("a", "ns1", &[("app", "a")]),
        service("b", "ns1", &[("app", "b")]),
        service("c", "ns1", &[("app", "c")]),
    ];
    for s in &services {
        update_service_relationships(&mut tree, s, &vec![]);
    }
    update_httproute_relationships(&mut tree, &route("r1", "ns1", &["a", "c"]), &services, &vec![]);
    assert_eq!(shape(&tree), "ns1[b,r1[a,c]]");
    // The route now refers to b alone: a and c leave with the old node.
    update_httproute_relationships(&mut tree, &route("r1", "ns1", &["b"]), &services, &vec![]);
    assert_eq!(shape(&tree), "ns1[r1[b]]");
    update_service_relationships(&mut tree, &services[0], &vec![]);
    assert_eq!(shape(&tree), "ns1[r1[b],a]");
}

#[test]
fn applying_twice_is_applying_once() {
    let (mut tree, services, pods) = service_with_pod();
    let r1 = route("r1", "ns1", &["svc1"]);
    update_httproute_relationships(&mut tree, &r1, &services, &pods);

    let once = tree.clone();
    update_pod_relationships(&mut tree, &pods[0]);
    let first = tree.clone();
    update_pod_relationships(&mut tree, &pods[0]);
    assert_eq!(tree, first);
    assert_eq!(first, once);

    update_service_relationships(&mut tree, &services[0], &pods);
    let first = tree.clone();
    update_service_relationships(&mut tree, &services[0], &pods);
    assert_eq!(tree, first);

    update_httproute_relationships(&mut tree, &r1, &services, &pods);
    let first = tree.clone();
    update_httproute_relationships(&mut tree, &r1, &services, &pods);
    assert_eq!(tree, first);

    update_namespace_relationships(&mut tree, &namespace("ns1"), &vec![r1], &services, &pods);
    let first = tree.clone();
    update_namespace_relationships(&mut tree, &namespace("ns1"), &vec![], &services, &pods);
    assert_eq!(tree, first);
}

#[test]
fn pod_leaves_a_service_that_no_longer_selects_it() {
    let (mut tree, _, pods) = service_with_pod();
    update_service_relationships(&mut tree, &service("other", "ns1", &[("app", "api")]), &pods);
    let changed = service("svc1", "ns1", &[("app", "api")]);
    update_service_relationships(&mut tree, &changed, &pods);
    assert_eq!(shape(&tree), "ns1[other,svc1]");
    update_pod_relationships(&mut tree, &pods[0]);
    assert_eq!(shape(&tree), "ns1[other,svc1,pod1]");
    // With a label that another service selects, the pod goes there.
    let relabelled = pod("pod1", "ns1", &[("app", "api")]);
    update_pod_relationships(&mut tree, &relabelled);
    assert_eq!(shape(&tree), "ns1[other[pod1],svc1]");
}

#[test]
fn first_forest_holds_everything_known() {
    let namespaces = vec![namespace("ns1"), namespace("ns2"), namespace("ns1")];
    let routes = vec![route("r1", "ns1", &["web"])];
    let services =
        vec![service("web", "ns1", &[("app", "web")]), service("db", "ns2", &[("app", "db")])];
    let pods = vec![
        pod("web-a", "ns1", &[("app", "web")]),
        pod("db-a", "ns2", &[("app", "db")]),
        pod("cache-a", "ns2", &[("app", "cache")]),
        pod("web-b", "ns3", &[("app", "web")]),
    ];
    let tree = build_initial_relationships(&namespaces, &routes, &services, &pods);
    assert_eq!(shape(&tree), "ns1[r1[web[web-a]]],ns2[db[db-a],cache-a]");
    let empty = build_initial_relationships(&vec![], &vec![], &vec![], &vec![]);
    assert!(empty.is_empty());
}

#[test]
fn feeds_say_when_to_publish() {
    let mut tree = Vec::new();
    let ns = namespace("ns1");
    let svc = service("svc1", "ns1", &[("app", "web")]);
    let p = pod("pod1", "ns1", &[("app", "web")]);
    let r = route("r1", "ns1", &["svc1"]);
    assert!(!handle_namespace_event(&mut tree, &WatchEvent::Init, &vec![], &vec![], &vec![]));
    assert!(handle_namespace_event(
        &mut tree,
        &WatchEvent::Apply(ns.clone()),
        &vec![],
        &vec![],
        &vec![]
    ));
    assert!(handle_service_event(&mut tree, &WatchEvent::Apply(svc.clone()), &vec![p.clone()]));
    assert!(!handle_pod_event(&mut tree, &WatchEvent::InitApply(p.clone())));
    assert!(!handle_pod_event(&mut tree, &WatchEvent::InitDone));
    assert!(handle_pod_event(&mut tree, &WatchEvent::Apply(p.clone())));
    assert!(handle_httproute_event(
        &mut tree,
        &WatchEvent::Apply(r.clone()),
        &vec![svc.clone()],
        &vec![p.clone()]
    ));
    assert_eq!(shape(&tree), "ns1[r1[svc1[pod1]]]");
    assert!(handle_httproute_event(&mut tree, &WatchEvent::Delete(r), &vec![svc.clone()], &vec![p.clone()]));
    assert_eq!(shape(&tree), "ns1");
    assert!(handle_service_event(&mut tree, &WatchEvent::Apply(svc.clone()), &vec![p.clone()]));
    assert!(handle_pod_event(&mut tree, &WatchEvent::Delete(p.clone())));
    assert_eq!(shape(&tree), "ns1[svc1]");
    assert!(handle_service_event(&mut tree, &WatchEvent::Delete(svc), &vec![p]));
    assert!(handle_namespace_event(&mut tree, &WatchEvent::Delete(ns), &vec![], &vec![], &vec![]));
    assert!(tree.is_empty());
}

#[test]
fn first_forest_has_the_known_namespaces_as_roots_and_no_other() {
    let namespaces = vec![namespace("ns1")];
    let services =
        vec![service("far", "elsewhere", &[("app", "web")]), service("near", "ns1", &[("app", "web")])];
    let routes = vec![route("lost", "elsewhere", &["far"])];
    let pods = vec![pod("web-a", "elsewhere", &[("app", "web")])];
    let tree = build_initial_relationships(&namespaces, &routes, &services, &pods);
    assert_eq!(tree.len(), 1);
    assert_eq!(shape(&tree), "ns1[near]");
    assert_eq!(tree[0].kind, ResourceKind::Namespace);
}

#[test]
fn first_matching_service_is_found_in_order() {
    let (mut tree, services, pods) = service_with_pod();
    let later = service("later", "ns1", &[("app", "web")]);
    update_httproute_relationships(&mut tree, &route("r1", "ns1", &["later"]), &[later], &[]);
    assert_eq!(shape(&tree), "ns1[svc1[pod1],r1[later]]");
    assert_eq!(services.len() + pods.len(), 2);
    let wanted = labels(&[("app", "web")]);
    assert_eq!(
        first_matching_service(&tree[0], Some("ns1"), &wanted),
        Some("svc1".to_string())
    );
    assert_eq!(
        first_matching_service(&tree[0].relatives[1], Some("ns1"), &wanted),
        Some("later".to_string())
    );
    assert_eq!(first_matching_service(&tree[0], Some("ns2"), &wanted), None);
    assert_eq!(first_matching_service(&tree[0], Some("ns1"), &labels(&[("app", "db")])), None);
    let mut root = tree.remove(0);
    add_pod_to_matching_services(
        &mut root,
        &pod("extra", "ns1", &[("app", "web")]),
        &wanted,
        "later",
    );
    assert_eq!(shape(&[root]), "ns1[svc1[pod1],r1[later[extra]]]");
}
