use workd::runtime::data_plane::{
    data_plane_route, extract_version_and_rpc_names, request_parameters, runtime_service_route, unimplemented_status_code,
    RouteError, RuntimeRoute,
};
use workd::runtime::cri::{
    component_name_from_labels, container_prefix, cri_container_log_path,
    cri_container_state_to_pod_states, cri_image_id, cri_image_ref, oci_prefix,
    parse_container_prefixed_name, parse_pod_prefixed_name, pod_prefix,
    pod_state_to_cri_container_state, pod_state_to_cri_pod_state,
    registry_and_component_from_image_spec, workd_prefix, ContainerState, ImageSpecError,
    PodSandboxState, admit_pod_sandbox, check_image_spec_annotations,
    cri_sandbox_readiness_to_pod_states, is_downstream, stop_timeout_secs, SandboxError,
    SandboxRequest, cri_container, cri_container_status, cri_pod_sandbox, cri_pod_sandbox_status,
    pod_has_container, list_upstream, admit_image_request, admit_pull_image, same_component,
    ImageRequest, PullError, admit_grpc_pod_sandbox, admit_grpc_container, grpc_host_port,
    ContainerImageSpec, GrpcContainerRequest, GrpcSandboxRequest, PortMapping,
};
use workd::runtime::names::Name;
use workd::runtime::value::Val;
use workd::runtime::state::{ContainerConfig, ContainerMetadata, PodState, PodTable, Readiness};

const POD: &str = "1234567890abcdef0f9ed8c7654b32a1:abc._._1.Ser_vicE@10.0.456-pre-release5#1a2f";
const DOMAIN: &str = "1234567890abcdef0f9ed8c7654b32a1";

fn pairs(items: &[(&str, &str)]) -> Vec<(String, String)> {
    items.iter().map(|(k, v)| (k.to_string(), v.to_string())).collect()
}

#[test]
fn prefixed_ids_round_trip() {
    let name = Name::parse(POD).pod().unwrap();
    let pod_id = pod_prefix(&name);
    assert_eq!(pod_id, format!("p-{POD}"));
    let container_id = container_prefix(&name);
    assert_eq!(container_id, format!("c-{POD}"));
    assert_eq!(parse_pod_prefixed_name(&pod_id).unwrap().to_string(), POD);
    assert_eq!(parse_container_prefixed_name(&container_id).unwrap().to_string(), POD);
    assert_eq!(oci_prefix("abc"), "O:abc");
    assert_eq!(workd_prefix("abc"), "W:abc");
    assert_eq!(
        parse_pod_prefixed_name("p-nonsense").unwrap_err().message(),
        "invalid-pod-name"
    );
}

#[test]
fn states_map_to_cri_states() {
    assert_eq!(pod_state_to_cri_pod_state(PodState::Running), PodSandboxState::SandboxReady);
    assert_eq!(pod_state_to_cri_pod_state(PodState::Killed), PodSandboxState::SandboxNotready);
    assert_eq!(PodSandboxState::SandboxNotready.value(), 1);
    assert_eq!(
        pod_state_to_cri_container_state(PodState::Initiated),
        ContainerState::ContainerUnknown
    );
    assert_eq!(
        pod_state_to_cri_container_state(PodState::Starting),
        ContainerState::ContainerCreated
    );
    assert_eq!(
        pod_state_to_cri_container_state(PodState::Running),
        ContainerState::ContainerRunning
    );
    assert_eq!(
        pod_state_to_cri_container_state(PodState::Stopped),
        ContainerState::ContainerExited
    );
    assert_eq!(
        pod_state_to_cri_container_state(PodState::Removed),
        ContainerState::ContainerExited
    );
    assert_eq!(
        pod_state_to_cri_container_state(PodState::Killed),
        ContainerState::ContainerExited
    );
    assert_eq!(ContainerState::ContainerExited.value(), 2);
    // Every pod the exited filter selects reports the exited state.
    for state in cri_container_state_to_pod_states(2) {
        assert_eq!(pod_state_to_cri_container_state(state).value(), 2);
    }
    assert_eq!(
        cri_container_state_to_pod_states(0),
        vec![PodState::Created, PodState::Starting]
    );
    assert_eq!(cri_container_state_to_pod_states(1), vec![PodState::Running]);
    assert_eq!(
        cri_container_state_to_pod_states(2),
        vec![PodState::Stopped, PodState::Removed, PodState::Killed]
    );
    assert!(cri_container_state_to_pod_states(3).is_empty());
    assert_eq!(cri_container_state_to_pod_states(42).len(), 4);
}

#[test]
fn placeholder_strings() {
    assert_eq!(cri_image_ref(), "TODO");
    assert_eq!(cri_image_id(), "TODO");
    assert_eq!(cri_container_log_path(), "/dev/null");
}

#[test]
fn component_from_labels() {
    let labels = pairs(&[
        ("vimana.host/domain", DOMAIN),
        ("vimana.host/service", "some.Service"),
        ("vimana.host/version", "1.0.0"),
    ]);
    let name = component_name_from_labels(&labels).unwrap();
    assert_eq!(name.to_string(), format!("{DOMAIN}:some.Service@1.0.0"));
    let missing = pairs(&[("vimana.host/domain", DOMAIN)]);
    assert_eq!(
        component_name_from_labels(&missing).unwrap_err().message(),
        "expected-service-label"
    );
    assert_eq!(
        component_name_from_labels(&Vec::new()).unwrap_err().message(),
        "expected-domain-label"
    );
    let bad_domain = pairs(&[("vimana.host/domain", "xyz")]);
    assert_eq!(
        component_name_from_labels(&bad_domain).unwrap_err().message(),
        "domain-uuid-too-short"
    );
}

#[test]
fn image_specs() {
    let spec = format!("registry.example:5000/{DOMAIN}/some.Service:1.2.3");
    let (registry, name) = registry_and_component_from_image_spec(&spec).unwrap();
    assert_eq!(registry, "registry.example:5000");
    assert_eq!(name.to_string(), format!("{DOMAIN}:some.Service@1.2.3"));
    assert!(matches!(
        registry_and_component_from_image_spec("no-slashes:1.0.0"),
        Err(ImageSpecError::Malformed)
    ));
    assert!(matches!(
        registry_and_component_from_image_spec(&format!("r/{DOMAIN}/svc")),
        Err(ImageSpecError::Malformed)
    ));
    assert!(matches!(
        registry_and_component_from_image_spec(&format!("r/{DOMAIN}/some.Service:1.0.0\n")),
        Err(ImageSpecError::Malformed)
    ));
    match registry_and_component_from_image_spec("r/short/some.Service:1.0.0") {
        Err(ImageSpecError::InvalidName(status)) => {
            assert_eq!(status.message(), "domain-uuid-too-short")
        }
        _ => panic!("expected an invalid name"),
    }
}

#[test]
fn request_routes() {
    let (name, rpc) =
        extract_version_and_rpc_names(DOMAIN, "1.0.0", "/some.Service/Call").unwrap();
    assert_eq!(name.to_string(), format!("{DOMAIN}:some.Service@1.0.0"));
    assert_eq!(rpc, "Call");
    for bad in ["", "/a", "abc/def", "/a/b/c", "/nothing"] {
        assert!(
            matches!(
                extract_version_and_rpc_names(DOMAIN, "1.0.0", bad),
                Err(RouteError::MalformedPath)
            ),
            "{bad}"
        );
    }
    match extract_version_and_rpc_names(DOMAIN, "1.0", "/some.Service/Call") {
        Err(RouteError::InvalidName(status)) => assert_eq!(status.message(), "invalid-version"),
        _ => panic!("expected an invalid version"),
    }
}

#[test]
fn data_plane_uris() {
    let route = data_plane_route(Some("example.com"), "/some.Service@1.0.0/Call").unwrap();
    assert_eq!(route.domain, "example.com");
    assert_eq!(route.service, "some.Service");
    assert_eq!(route.version, "1.0.0");
    assert_eq!(route.method, "Call");
    assert_eq!(data_plane_route(None, "/a@1/b").unwrap_err(), "Missing host in URI");
    assert_eq!(data_plane_route(Some("h"), "/a@1").unwrap_err(), "Missing method name in URI");
    assert_eq!(data_plane_route(Some("h"), "/a/b").unwrap_err(), "Missing version in URI");
    assert_eq!(runtime_service_route("/runtime.v1.RuntimeService/Version"), RuntimeRoute::Version);
    assert_eq!(
        runtime_service_route("/runtime.v1.RuntimeService/RunPodSandbox"),
        RuntimeRoute::RunPodSandbox
    );
    assert_eq!(
        runtime_service_route("/runtime.v1.RuntimeService/Status"),
        RuntimeRoute::Unimplemented
    );
    assert_eq!(unimplemented_status_code(), 12);
}

#[test]
fn sandbox_requests() {
    assert!(is_downstream("abc", false));
    assert!(is_downstream("p-x", true));
    assert!(!is_downstream("p-x", false));
    assert!(!is_downstream("c-x", false));
    let labels = pairs(&[
        ("vimana.host/domain", DOMAIN),
        ("vimana.host/service", "some.Service"),
        ("vimana.host/version", "1.0.0"),
    ]);
    assert!(matches!(admit_pod_sandbox("runc", &Vec::new(), 3), Ok(SandboxRequest::Downstream)));
    match admit_pod_sandbox("workd-handler", &labels, 0) {
        Ok(SandboxRequest::Workd(name)) => {
            assert_eq!(name.to_string(), format!("{DOMAIN}:some.Service@1.0.0"))
        }
        _ => panic!("expected a workd pod"),
    }
    assert!(matches!(
        admit_pod_sandbox("workd-handler", &labels, 1),
        Err(SandboxError::PortMappings)
    ));
    match admit_pod_sandbox("workd-handler", &Vec::new(), 0) {
        Err(SandboxError::InvalidLabels(s)) => assert_eq!(s.message(), "expected-domain-label"),
        _ => panic!("expected invalid labels"),
    }
    assert_eq!(cri_sandbox_readiness_to_pod_states(Some(false)), vec![PodState::Killed]);
    assert_eq!(cri_sandbox_readiness_to_pod_states(Some(true)).len(), 6);
    assert!(cri_sandbox_readiness_to_pod_states(None).is_empty());
    assert_eq!(stop_timeout_secs(-5), 0);
    assert_eq!(stop_timeout_secs(30), 30);
    assert!(check_image_spec_annotations(0).is_ok());
    assert_eq!(
        check_image_spec_annotations(2).unwrap_err(),
        "Image spec annotations are unsupported"
    );
}

#[test]
fn method_parameters_carry_readable_headers() {
    let headers = vec![
        ("content-type".to_string(), Some("application/grpc".to_string())),
        ("bin-key".to_string(), None),
        ("te".to_string(), Some("trailers".to_string())),
    ];
    let params = request_parameters(&headers, Val::U32(7));
    assert_eq!(params.len(), 2);
    assert_eq!(params[1], Val::U32(7));
    let expected = Val::Record(vec![(
        "headers".to_string(),
        Val::List(vec![
            Val::Tuple(vec![
                Val::String(b"content-type".to_vec()),
                Val::String(b"application/grpc".to_vec()),
            ]),
            Val::Tuple(vec![Val::String(b"te".to_vec()), Val::String(b"trailers".to_vec())]),
        ]),
    )]);
    assert_eq!(params[0], expected);
}

#[test]
fn cri_views_of_a_pod() {
    let name = Name::parse(POD).pod().unwrap();
    let mut table = PodTable::new();
    table.insert_initiated(name.pod, pairs(&[("app", "web")]), pairs(&[("note", "x")]), 11).unwrap();
    let sandbox = cri_pod_sandbox(&name, table.get(name.pod).unwrap());
    assert_eq!(sandbox.id, format!("p-{POD}"));
    assert_eq!(sandbox.runtime_handler, "workd-handler");
    assert_eq!(sandbox.state, PodSandboxState::SandboxReady);
    assert_eq!(sandbox.created_at, 11);
    assert_eq!(sandbox.labels, pairs(&[("app", "web")]));
    let (status, containers) =
        cri_pod_sandbox_status(&name, table.get(name.pod).unwrap(), "10.0.0.7".to_string());
    assert_eq!(status.ip, "10.0.0.7");
    assert_eq!(status.annotations, pairs(&[("note", "x")]));
    assert!(containers.is_empty());

    let config = ContainerConfig {
        metadata: Some(ContainerMetadata { name: "server".to_string(), attempt: 2 }),
        labels: pairs(&[("role", "api")]),
        annotations: Vec::new(),
        environment: Vec::new(),
    };
    table.create_container(name.pod, config, 12).unwrap();
    table.begin_start(name.pod, Readiness::Ready).unwrap();
    table.finish_start(name.pod, 13).unwrap();
    let pod = table.get(name.pod).unwrap();
    assert!(pod_has_container(pod.state));
    let container = cri_container(&name, pod);
    assert_eq!(container.id, format!("c-{POD}"));
    assert_eq!(container.pod_sandbox_id, format!("p-{POD}"));
    assert_eq!(container.state, ContainerState::ContainerRunning);
    assert_eq!(container.metadata.as_ref().unwrap().attempt, 2);
    assert_eq!(container.image_ref, "TODO");
    let status = cri_container_status(&name, pod);
    assert_eq!(status.started_at, 13);
    assert_eq!(status.created_at, 12);
    assert_eq!(status.exit_code, 0);
    assert_eq!(status.log_path, "/dev/null");
    assert_eq!(status.labels, pairs(&[("role", "api")]));
    let (_, containers) = cri_pod_sandbox_status(&name, pod, String::new());
    assert_eq!(containers.len(), 1);
    assert_eq!(containers[0].state, ContainerState::ContainerRunning);
}

#[test]
fn upstream_listing_by_id_or_filter() {
    let name = Name::parse(POD).pod().unwrap();
    let mut table = PodTable::new();
    table.insert_initiated(name.pod, pairs(&[("app", "web")]), Vec::new(), 1).unwrap();
    let other = name.pod + 1;
    table.insert_initiated(other, pairs(&[("app", "db")]), Vec::new(), 1).unwrap();
    let mut all = list_upstream(&table, "", false, &Vec::new(), &Vec::new());
    all.sort();
    assert_eq!(all, vec![name.pod, other]);
    let by_id = list_upstream(&table, &format!("p-{POD}"), false, &Vec::new(), &Vec::new());
    assert_eq!(by_id, vec![name.pod]);
    let filtered_out =
        list_upstream(&table, &format!("p-{POD}"), false, &pairs(&[("app", "db")]), &Vec::new());
    assert!(filtered_out.is_empty());
    assert!(list_upstream(&table, "p-garbage", false, &Vec::new(), &Vec::new()).is_empty());
    assert!(list_upstream(&table, &format!("c-{POD}"), true, &Vec::new(), &Vec::new()).len() == 1);
}

#[test]
fn image_requests() {
    let spec = format!("reg:5000/{DOMAIN}/some.Service:1.0.0");
    assert!(matches!(admit_image_request(Some("runc"), &spec), Ok(ImageRequest::Downstream)));
    match admit_image_request(Some("workd-handler"), &spec) {
        Ok(ImageRequest::Workd(registry, name)) => {
            assert_eq!(registry, "reg:5000");
            assert_eq!(name.to_string(), format!("{DOMAIN}:some.Service@1.0.0"));
        }
        _ => panic!("expected the store"),
    }
    assert!(matches!(admit_image_request(None, ""), Err(ImageSpecError::Malformed)));

    let labels = pairs(&[
        ("vimana.host/domain", DOMAIN),
        ("vimana.host/service", "some.Service"),
        ("vimana.host/version", "1.0.0"),
    ]);
    assert!(matches!(
        admit_pull_image(Some("workd-handler"), &spec, &labels),
        Ok(ImageRequest::Workd(_, _))
    ));
    let other = pairs(&[
        ("vimana.host/domain", DOMAIN),
        ("vimana.host/service", "some.Service"),
        ("vimana.host/version", "2.0.0"),
    ]);
    assert!(matches!(
        admit_pull_image(Some("workd-handler"), &spec, &other),
        Err(PullError::LabelMismatch)
    ));
    assert!(matches!(
        admit_pull_image(None, &spec, &Vec::new()),
        Err(PullError::InvalidLabels(_))
    ));
    let a = Name::parse(&format!("{DOMAIN}:some.Service@1.0.0")).component().unwrap();
    let b = Name::parse(&format!("{DOMAIN}:some.Service@1.0.1")).component().unwrap();
    assert!(same_component(&a, &a));
    assert!(!same_component(&a, &b));
}

fn grpc_labels() -> Vec<(String, String)> {
    pairs(&[
        ("vimana.host/domain", DOMAIN),
        ("vimana.host/service", "abc._._1.Ser_vicE"),
        ("vimana.host/version", "10.0.456-pre-release5"),
    ])
}

fn https_mapping(host_port: i32) -> PortMapping {
    PortMapping { protocol: 0, container_port: 443, host_port }
}

#[test]
fn grpc_port_mappings_are_checked() {
    assert_eq!(grpc_host_port(&vec![https_mapping(8443)]).unwrap(), 8443);
    assert_eq!(grpc_host_port(&vec![https_mapping(65535)]).unwrap(), 65535);
    assert_eq!(grpc_host_port(&vec![]).unwrap_err().message(), "grpc-port-mappings");
    assert_eq!(
        grpc_host_port(&vec![https_mapping(1), https_mapping(2)]).unwrap_err().message(),
        "grpc-port-mappings"
    );
    let udp = PortMapping { protocol: 1, container_port: 443, host_port: 8443 };
    assert_eq!(grpc_host_port(&vec![udp]).unwrap_err().message(), "grpc-port-protocol");
    let http = PortMapping { protocol: 0, container_port: 80, host_port: 8443 };
    assert_eq!(grpc_host_port(&vec![http]).unwrap_err().message(), "grpc-port-internal");
    assert_eq!(grpc_host_port(&vec![https_mapping(0)]).unwrap_err().message(), "grpc-port-external");
    assert_eq!(
        grpc_host_port(&vec![https_mapping(65536)]).unwrap_err().message(),
        "grpc-port-external"
    );
}

#[test]
fn grpc_pod_sandboxes_are_admitted() {
    let labels = grpc_labels();
    assert!(matches!(
        admit_grpc_pod_sandbox("runc", &labels, &vec![]),
        Ok(GrpcSandboxRequest::Downstream)
    ));
    match admit_grpc_pod_sandbox("workd", &labels, &vec![https_mapping(8443)]) {
        Ok(GrpcSandboxRequest::Workd(component, port)) => {
            assert_eq!(component.to_string(), format!("{DOMAIN}:abc._._1.Ser_vicE@10.0.456-pre-release5"));
            assert_eq!(port, 8443);
        }
        other => panic!("unexpected {other:?}"),
    }
    assert_eq!(
        admit_grpc_pod_sandbox("workd", &pairs(&[]), &vec![https_mapping(8443)])
            .unwrap_err()
            .message(),
        "expected-domain-label"
    );
    assert_eq!(
        admit_grpc_pod_sandbox("workd", &labels, &vec![https_mapping(-1)]).unwrap_err().message(),
        "grpc-port-external"
    );
}

fn image_spec<'a>(image: &'a str, handler: &'a str, annotations: usize, user: &'a str) -> ContainerImageSpec<'a> {
    ContainerImageSpec { image, runtime_handler: handler, annotations, user_specified_image: user }
}

#[test]
fn grpc_containers_are_admitted() {
    let labels = grpc_labels();
    let id = format!("W:{POD}");
    let component = format!("{DOMAIN}:abc._._1.Ser_vicE@10.0.456-pre-release5");
    assert!(matches!(
        admit_grpc_container("O:abc", &labels, &image_spec("x", "y", 1, "z")),
        Ok(GrpcContainerRequest::Downstream)
    ));
    match admit_grpc_container(&id, &labels, &image_spec(&component, "workd", 0, "")) {
        Ok(GrpcContainerRequest::Workd(pod)) => assert_eq!(pod.to_string(), POD),
        other => panic!("unexpected {other:?}"),
    }
    let error = |id: &str, labels: &Vec<(String, String)>, spec: ContainerImageSpec| {
        admit_grpc_container(id, labels, &spec).unwrap_err().message()
    };
    assert_eq!(error("W:nonsense", &labels, image_spec(&component, "workd", 0, "")), "invalid-pod-name");
    assert_eq!(
        error(&id, &pairs(&[]), image_spec(&component, "workd", 0, "")),
        "expected-domain-label"
    );
    let other_labels = pairs(&[
        ("vimana.host/domain", DOMAIN),
        ("vimana.host/service", "abc._._1.Ser_vicE"),
        ("vimana.host/version", "10.0.457"),
    ]);
    assert_eq!(
        error(&id, &other_labels, image_spec(&component, "workd", 0, "")),
        "create-container-labels-pod-mismatch"
    );
    assert_eq!(
        error(&id, &labels, image_spec("other", "workd", 0, "")),
        "create-container-labels-image-mismatch"
    );
    assert_eq!(
        error(&id, &labels, image_spec(&component, "runc", 0, "")),
        "create-container-invalid-runtime"
    );
    assert_eq!(
        error(&id, &labels, image_spec(&component, "workd", 2, "")),
        "create-container-image-annotations"
    );
    assert_eq!(
        error(&id, &labels, image_spec(&component, "workd", 0, "image")),
        "create-container-user-specified-image"
    );
}
