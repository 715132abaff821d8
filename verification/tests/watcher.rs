use constellation::labels::{selectors_match, Labels};
use constellation::metadata::{
    extract_port_info, extract_resource_metadata, ResourceMetadata,
};
use constellation::node::{new_pod, new_service, HierarchyNode, ResourceKind, ResourceSpec};
use constellation::objects::{
    Container, ContainerPort, HTTPRoute, HTTPRouteSpec, IntOrString, ObjectMeta, Pod, PodSpec,
    PodStatus, Service, ServicePort, ServiceSpec,
};
use constellation::reconcile::{update_httproute_relationships, update_service_relationships};
use constellation::tree::{remove_httproute_node, remove_pod_node, remove_service_node};

fn labels_of(pairs: &[(&str, &str)]) -> Labels {
    let mut labels = Labels::new();
    for (key, value) in pairs {
        labels.insert(key.to_string(), value.to_string());
    }
    labels
}

fn create_test_namespace(name: &str) -> HierarchyNode {
    HierarchyNode {
        kind: ResourceKind::Namespace,
        name: name.to_string(),
        relatives: Vec::new(),
        metadata: ObjectMeta {
            name: Some(name.to_string()),
            namespace: None,
            ..Default::default()
        },
        spec: Some(ResourceSpec::Namespace(())),
        resource_metadata: ResourceMetadata {
            hostnames: None,
            selectors: None,
            ports: None,
            port_mappings: None,
            target_ports: None,
            target_port_names: None,
            labels: None,
            phase: None,
            backend_refs: None,
            service_type: None,
            cluster_ips: None,
            external_ips: None,
            pod_ips: None,
            container_ports: None,
        },
    }
}

fn create_test_pod(name: &str, namespace: &str, labels: Labels) -> Pod {
    Pod {
        metadata: ObjectMeta {
            name: Some(name.to_string()),
            namespace: Some(namespace.to_string()),
            labels: Some(labels),
        },
        spec: Some(PodSpec { containers: vec![] }),
        status: Some(PodStatus { phase: Some("Running".to_string()), ..Default::default() }),
    }
}

fn create_test_service(name: &str, namespace: &str, selector: Labels) -> Service {
    Service {
        metadata: ObjectMeta {
            name: Some(name.to_string()),
            namespace: Some(namespace.to_string()),
            ..Default::default()
        },
        spec: Some(ServiceSpec {
            selector: Some(selector),
            ports: Some(vec![ServicePort { port: 80, ..Default::default() }]),
            ..Default::default()
        }),
        status: None,
    }
}

fn create_test_httproute(name: &str, namespace: &str, _backend_service: &str) -> HTTPRoute {
    HTTPRoute {
        metadata: ObjectMeta {
            name: Some(name.to_string()),
            namespace: Some(namespace.to_string()),
            ..Default::default()
        },
        spec: HTTPRouteSpec {
            hostnames: Some(vec!["example.com".to_string()]),
            ..Default::default()
        },
    }
}

#[test]
fn test_selectors_match() {
    let selectors = labels_of(&[("app", "web"), ("version", "v1")]);
    let matching_labels = labels_of(&[("app", "web"), ("version", "v1"), ("env", "prod")]);
    let non_matching_labels = labels_of(&[("app", "api"), ("version", "v1")]);

    assert!(selectors_match(&selectors, &matching_labels));
    assert!(!selectors_match(&selectors, &non_matching_labels));
}

#[test]
fn test_new_pod_creation() {
    let labels = labels_of(&[("app", "web")]);

    let pod = create_test_pod("test-pod", "default", labels.clone());
    let hierarchy_node = new_pod(&pod);

    assert_eq!(hierarchy_node.kind, ResourceKind::Pod);
    assert_eq!(hierarchy_node.name, "test-pod");
    assert_eq!(hierarchy_node.metadata.namespace, Some("default".to_string()));
    assert_eq!(hierarchy_node.resource_metadata.labels, Some(labels));
    assert_eq!(hierarchy_node.resource_metadata.phase, Some("Running".to_string()));
}

#[test]
fn test_new_service_creation() {
    let selector = labels_of(&[("app", "web")]);

    let service = create_test_service("test-service", "default", selector.clone());
    let hierarchy_node = new_service(&service);

    assert_eq!(hierarchy_node.kind, ResourceKind::Service);
    assert_eq!(hierarchy_node.name, "test-service");
    assert_eq!(hierarchy_node.metadata.namespace, Some("default".to_string()));
    assert_eq!(hierarchy_node.resource_metadata.selectors, Some(selector));
    assert_eq!(hierarchy_node.resource_metadata.ports, Some(vec![80]));
}

#[test]
fn test_remove_pod_node() {
    let mut namespace = create_test_namespace("default");

    let labels = labels_of(&[("app", "web")]);
    let pod = create_test_pod("test-pod", "default", labels);
    let pod_node = new_pod(&pod);
    namespace.relatives.push(pod_node);

    assert_eq!(namespace.relatives.len(), 1);

    remove_pod_node(&mut namespace, "test-pod", Some("default"));

    assert_eq!(namespace.relatives.len(), 0);
}

#[test]
fn test_remove_service_node() {
    let mut namespace = create_test_namespace("default");

    let selector = Labels::new();
    let service = create_test_service("test-service", "default", selector);
    let service_node = new_service(&service);
    namespace.relatives.push(service_node);

    assert_eq!(namespace.relatives.len(), 1);

    remove_service_node(&mut namespace, "test-service", Some("default"));

    assert_eq!(namespace.relatives.len(), 0);
}

#[test]
fn test_update_service_relationships_with_matching_pod() {
    let mut hierarchy = vec![create_test_namespace("default")];

    let selector = labels_of(&[("app", "web")]);
    let service = create_test_service("web-service", "default", selector.clone());

    let pod = create_test_pod("web-pod", "default", selector);
    let pods = vec![pod];

    update_service_relationships(&mut hierarchy, &service, &pods);

    assert_eq!(hierarchy.len(), 1);
    assert_eq!(hierarchy[0].relatives.len(), 1);
    assert_eq!(hierarchy[0].relatives[0].kind, ResourceKind::Service);
    assert_eq!(hierarchy[0].relatives[0].name, "web-service");
    assert_eq!(hierarchy[0].relatives[0].relatives.len(), 1);
    assert_eq!(hierarchy[0].relatives[0].relatives[0].kind, ResourceKind::Pod);
    assert_eq!(hierarchy[0].relatives[0].relatives[0].name, "web-pod");
}

#[test]
fn test_update_httproute_relationships() {
    let mut hierarchy = vec![create_test_namespace("default")];

    let selector = labels_of(&[("app", "web")]);
    let service = create_test_service("web-service", "default", selector.clone());
    let services = vec![service];

    let pod = create_test_pod("web-pod", "default", selector);
    let pods = vec![pod];

    let httproute = create_test_httproute("web-route", "default", "web-service");

    update_httproute_relationships(&mut hierarchy, &httproute, &services, &pods);

    assert_eq!(hierarchy.len(), 1);
    assert_eq!(hierarchy[0].relatives.len(), 1);

    let httproute_node = &hierarchy[0].relatives[0];
    assert_eq!(httproute_node.kind, ResourceKind::HTTPRoute);
    assert_eq!(httproute_node.name, "web-route");
    assert_eq!(
        httproute_node.resource_metadata.hostnames,
        Some(vec!["example.com".to_string()])
    );
}

#[test]
fn test_service_relationships_without_httproute() {
    let mut hierarchy = vec![create_test_namespace("default")];

    let selector = labels_of(&[("app", "api")]);
    let service = create_test_service("api-service", "default", selector.clone());

    let pod = create_test_pod("api-pod", "default", selector);
    let pods = vec![pod];

    update_service_relationships(&mut hierarchy, &service, &pods);

    assert_eq!(hierarchy.len(), 1);
    assert_eq!(hierarchy[0].relatives.len(), 1);
    assert_eq!(hierarchy[0].relatives[0].kind, ResourceKind::Service);
    assert_eq!(hierarchy[0].relatives[0].name, "api-service");
    assert_eq!(hierarchy[0].relatives[0].relatives.len(), 1);
    assert_eq!(hierarchy[0].relatives[0].relatives[0].kind, ResourceKind::Pod);
    assert_eq!(hierarchy[0].relatives[0].relatives[0].name, "api-pod");
}

#[test]
fn test_extract_resource_metadata_httproute() {
    let httproute = create_test_httproute("test-route", "default", "test-service");
    let metadata = httproute.metadata.clone();
    let spec = Some(ResourceSpec::HTTPRoute(httproute.spec.clone()));

    let resource_metadata = extract_resource_metadata(&ResourceKind::HTTPRoute, &metadata, &spec);

    assert_eq!(resource_metadata.hostnames, Some(vec!["example.com".to_string()]));
    assert!(resource_metadata.selectors.is_none());
    assert!(resource_metadata.ports.is_none());
}

#[test]
fn test_extract_resource_metadata_service() {
    let selector = labels_of(&[("app", "web")]);
    let service = create_test_service("test-service", "default", selector.clone());
    let metadata = service.metadata.clone();
    let spec = Some(ResourceSpec::Service(Box::new(service.spec.clone().unwrap())));

    let resource_metadata = extract_resource_metadata(&ResourceKind::Service, &metadata, &spec);

    assert_eq!(resource_metadata.selectors, Some(selector));
    assert_eq!(resource_metadata.ports, Some(vec![80]));
    assert!(resource_metadata.hostnames.is_none());
    assert!(resource_metadata.backend_refs.is_none());
}

#[test]
fn test_hierarchy_state_after_multiple_events() {
    let mut hierarchy = vec![create_test_namespace("default")];

    let httproute = create_test_httproute("web-route", "default", "web-service");
    let services = vec![];
    let pods = vec![];
    update_httproute_relationships(&mut hierarchy, &httproute, &services, &pods);

    assert_eq!(hierarchy[0].relatives.len(), 1);
    assert_eq!(hierarchy[0].relatives[0].kind, ResourceKind::HTTPRoute);

    let selector = labels_of(&[("app", "web")]);
    let service = create_test_service("web-service", "default", selector.clone());
    update_service_relationships(&mut hierarchy, &service, &pods);

    assert_eq!(hierarchy[0].relatives.len(), 2);
    let httproute_node = &hierarchy[0].relatives[0];
    assert_eq!(httproute_node.kind, ResourceKind::HTTPRoute);
    let service_node = &hierarchy[0].relatives[1];
    assert_eq!(service_node.kind, ResourceKind::Service);

    let pod = create_test_pod("web-pod", "default", selector);
    let pods = vec![pod];
    update_service_relationships(&mut hierarchy, &service, &pods);

    let service_node = &hierarchy[0].relatives[1];
    assert_eq!(service_node.relatives.len(), 1);
    assert_eq!(service_node.relatives[0].kind, ResourceKind::Pod);
    assert_eq!(service_node.relatives[0].name, "web-pod");
}

#[test]
fn test_remove_httproute_node() {
    let mut namespace = create_test_namespace("default");

    let httproute = create_test_httproute("test-route", "default", "test-service");
    let metadata = httproute.metadata.clone();
    let spec = Some(ResourceSpec::HTTPRoute(httproute.spec.clone()));
    let resource_metadata = extract_resource_metadata(&ResourceKind::HTTPRoute, &metadata, &spec);

    let httproute_node = HierarchyNode {
        kind: ResourceKind::HTTPRoute,
        name: "test-route".to_string(),
        relatives: Vec::new(),
        metadata,
        spec,
        resource_metadata,
    };
    namespace.relatives.push(httproute_node);

    assert_eq!(namespace.relatives.len(), 1);

    remove_httproute_node(&mut namespace, "test-route", Some("default"));

    assert_eq!(namespace.relatives.len(), 0);
}

#[test]
fn test_extract_port_info_numeric_ports() {
    let ports = vec![
        ServicePort { port: 80, target_port: Some(IntOrString::Int(8080)), ..Default::default() },
        ServicePort { port: 443, target_port: Some(IntOrString::Int(443)), ..Default::default() },
        ServicePort { port: 9090, target_port: None, ..Default::default() },
    ];

    let port_info = extract_port_info(&ports);

    assert_eq!(port_info.service_ports, vec![80, 443, 9090]);
    assert_eq!(port_info.port_mappings, vec!["80→8080", "443", "9090"]);
    assert_eq!(port_info.target_ports, vec![8080, 443, 9090]);
    assert_eq!(port_info.target_port_names, Vec::<String>::new());
}

#[test]
fn test_extract_port_info_named_ports() {
    let ports = vec![
        ServicePort {
            port: 80,
            target_port: Some(IntOrString::String("http".to_string())),
            ..Default::default()
        },
        ServicePort {
            port: 443,
            target_port: Some(IntOrString::String("https".to_string())),
            ..Default::default()
        },
    ];

    let port_info = extract_port_info(&ports);

    assert_eq!(port_info.service_ports, vec![80, 443]);
    assert_eq!(port_info.port_mappings, vec!["80→http", "443→https"]);
    assert_eq!(port_info.target_ports, vec![80, 443]);
    assert_eq!(port_info.target_port_names, vec!["http", "https"]);
}

#[test]
fn test_extract_port_info_named_port_with_numeric_target() {
    let ports = vec![ServicePort {
        name: Some("http".to_string()),
        port: 80,
        target_port: Some(IntOrString::Int(8989)),
    }];

    let port_info = extract_port_info(&ports);

    assert_eq!(port_info.service_ports, vec![80]);
    assert_eq!(port_info.port_mappings, vec!["80→8989"]);
    assert_eq!(port_info.target_ports, vec![8989]);
    assert_eq!(port_info.target_port_names, Vec::<String>::new());
}

#[test]
fn test_extract_port_info_mixed_ports() {
    let ports = vec![
        ServicePort {
            port: 80,
            target_port: Some(IntOrString::String("http".to_string())),
            ..Default::default()
        },
        ServicePort { port: 443, target_port: Some(IntOrString::Int(8443)), ..Default::default() },
        ServicePort { port: 3000, target_port: Some(IntOrString::Int(3000)), ..Default::default() },
        ServicePort { port: 9000, target_port: None, ..Default::default() },
    ];

    let port_info = extract_port_info(&ports);

    assert_eq!(port_info.service_ports, vec![80, 443, 3000, 9000]);
    assert_eq!(port_info.port_mappings, vec!["80→http", "443→8443", "3000", "9000"]);
    assert_eq!(port_info.target_ports, vec![80, 8443, 3000, 9000]);
    assert_eq!(port_info.target_port_names, vec!["http"]);
}

#[test]
fn test_extract_resource_metadata_service_with_ports() {
    let metadata = ObjectMeta {
        name: Some("test-service".to_string()),
        namespace: Some("default".to_string()),
        ..Default::default()
    };

    let service_spec = ServiceSpec {
        selector: Some(labels_of(&[("app", "web")])),
        ports: Some(vec![
            ServicePort {
                port: 80,
                target_port: Some(IntOrString::String("http".to_string())),
                ..Default::default()
            },
            ServicePort {
                port: 443,
                target_port: Some(IntOrString::Int(8443)),
                ..Default::default()
            },
        ]),
        type_: Some("ClusterIP".to_string()),
        cluster_ip: Some("10.1.2.3".to_string()),
        ..Default::default()
    };

    let spec = Some(ResourceSpec::Service(Box::new(service_spec)));
    let resource_metadata = extract_resource_metadata(&ResourceKind::Service, &metadata, &spec);

    assert_eq!(resource_metadata.ports, Some(vec![80, 443]));
    assert_eq!(
        resource_metadata.port_mappings,
        Some(vec!["80→http".to_string(), "443→8443".to_string()])
    );
    assert_eq!(resource_metadata.target_ports, Some(vec![80, 8443]));
    assert_eq!(resource_metadata.target_port_names, Some(vec!["http".to_string()]));
    assert_eq!(resource_metadata.service_type, Some("ClusterIP".to_string()));
    assert_eq!(resource_metadata.cluster_ips, Some(vec!["10.1.2.3".to_string()]));
}

#[test]
fn test_extract_container_ports_from_pod() {
    let metadata = ObjectMeta {
        name: Some("test-pod".to_string()),
        namespace: Some("default".to_string()),
        labels: Some(labels_of(&[("app", "web")])),
    };

    let pod_spec = PodSpec {
        containers: vec![Container {
            name: "web".to_string(),
            ports: Some(vec![
                ContainerPort {
                    container_port: 8080,
                    name: Some("http".to_string()),
                    protocol: Some("TCP".to_string()),
                },
                ContainerPort {
                    container_port: 8443,
                    name: Some("https".to_string()),
                    protocol: Some("TCP".to_string()),
                },
                ContainerPort {
                    container_port: 9090,
                    name: None,
                    protocol: Some("TCP".to_string()),
                },
            ]),
        }],
    };

    let spec = Some(ResourceSpec::Pod(Box::new(pod_spec)));
    let resource_metadata = extract_resource_metadata(&ResourceKind::Pod, &metadata, &spec);

    let container_ports = resource_metadata.container_ports.unwrap();
    assert_eq!(container_ports.len(), 3);

    assert_eq!(container_ports[0].port, 8080);
    assert_eq!(container_ports[0].name, Some("http".to_string()));
    assert_eq!(container_ports[0].protocol, Some("TCP".to_string()));

    assert_eq!(container_ports[1].port, 8443);
    assert_eq!(container_ports[1].name, Some("https".to_string()));
    assert_eq!(container_ports[1].protocol, Some("TCP".to_string()));

    assert_eq!(container_ports[2].port, 9090);
    assert_eq!(container_ports[2].name, None);
    assert_eq!(container_ports[2].protocol, Some("TCP".to_string()));
}

#[test]
fn test_extract_container_ports_multiple_containers() {
    let metadata = ObjectMeta {
        name: Some("test-pod".to_string()),
        namespace: Some("default".to_string()),
        ..Default::default()
    };

    let pod_spec = PodSpec {
        containers: vec![
            Container {
                name: "web".to_string(),
                ports: Some(vec![ContainerPort {
                    container_port: 8080,
                    name: Some("http".to_string()),
                    ..Default::default()
                }]),
            },
            Container {
                name: "sidecar".to_string(),
                ports: Some(vec![ContainerPort {
                    container_port: 9000,
                    name: Some("metrics".to_string()),
                    ..Default::default()
                }]),
            },
        ],
    };

    let spec = Some(ResourceSpec::Pod(Box::new(pod_spec)));
    let resource_metadata = extract_resource_metadata(&ResourceKind::Pod, &metadata, &spec);

    let container_ports = resource_metadata.container_ports.unwrap();
    assert_eq!(container_ports.len(), 2);

    assert_eq!(container_ports[0].port, 8080);
    assert_eq!(container_ports[0].name, Some("http".to_string()));

    assert_eq!(container_ports[1].port, 9000);
    assert_eq!(container_ports[1].name, Some("metrics".to_string()));
}

#[test]
fn test_extract_port_info_empty_ports() {
    let ports = vec![];
    let port_info = extract_port_info(&ports);

    assert_eq!(port_info.service_ports, Vec::<u32>::new());
    assert_eq!(port_info.port_mappings, Vec::<String>::new());
    assert_eq!(port_info.target_ports, Vec::<u32>::new());
    assert_eq!(port_info.target_port_names, Vec::<String>::new());
}
