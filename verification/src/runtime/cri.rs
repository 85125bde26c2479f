//! Helpers of the container runtime interface (CRI) service: the prefixed IDs under which
//! pods and containers are known to Kubelet, the mapping between pod states and CRI
//! states, and the names read from labels and image specs.

use vstd::prelude::*;
use vstd::utf8::encode_utf8;

use crate::runtime::error::{status, status_result, Code, Status, StatusView};
use crate::runtime::names::{
    component_name_spec, component_name_text, domain_uuid_spec, pod_name_text, pod_spec, ComponentName,
    ComponentNameView, DomainUuid, Name, PodName, PodNameView,
};
use crate::runtime::names::PodId;
use crate::runtime::state::{
    filtered_labels, lookup, metadata_view, pairs_map, pairs_view, pod_matches, ContainerMetadata,
    PodRecord, PodState, PodTable,
};
use crate::text::{chars_of, find, first_of, has_prefix, split_name_spec};

verus! {

/// Prefix of the IDs of pods run by this runtime.
pub open spec fn pod_id_prefix() -> Seq<char> {
    seq!['p', '-']
}

/// Prefix of the IDs of containers run by this runtime.
pub open spec fn container_id_prefix() -> Seq<char> {
    seq!['c', '-']
}

/// Prefix of the IDs of objects of the downstream OCI runtime.
pub open spec fn oci_id_prefix() -> Seq<char> {
    seq!['O', ':']
}

/// Prefix of the IDs of objects of this runtime, beside downstream ones.
pub open spec fn workd_id_prefix() -> Seq<char> {
    seq!['W', ':']
}

/// `prefix` followed by `rest`.
fn prefixed(prefix: &str, rest: &str) -> (s: String)
    ensures
        s@ == prefix@ + rest@,
{
    let mut s = String::new();
    s.append(prefix);
    s.append(rest);
    assert(s@ =~= prefix@ + rest@);
    s
}

/// The ID under which Kubelet knows a pod: `p-` and its name.
pub fn pod_prefix(name: &PodName) -> (s: String)
    ensures
        s@ == pod_id_prefix() + pod_name_text(name@),
{
    let text = name.to_string();
    proof {
        reveal_strlit("p-");
    }
    prefixed("p-", text.as_str())
}

/// The ID under which Kubelet knows a container: `c-` and its pod's name.
pub fn container_prefix(name: &PodName) -> (s: String)
    ensures
        s@ == container_id_prefix() + pod_name_text(name@),
{
    let text = name.to_string();
    proof {
        reveal_strlit("c-");
    }
    prefixed("c-", text.as_str())
}

/// The ID of an object of the downstream OCI runtime: `O:` and its own ID.
pub fn oci_prefix(id: &str) -> (s: String)
    ensures
        s@ == oci_id_prefix() + id@,
{
    proof {
        reveal_strlit("O:");
    }
    prefixed("O:", id)
}

/// The ID of an object of this runtime beside downstream ones: `W:` and its own ID.
pub fn workd_prefix(id: &str) -> (s: String)
    ensures
        s@ == workd_id_prefix() + id@,
{
    proof {
        reveal_strlit("W:");
    }
    prefixed("W:", id)
}

/// The pod name in an ID that begins with `prefix` (of two characters).
fn parse_prefixed(name: &str, Ghost(prefix): Ghost<Seq<char>>) -> (res: Result<PodName, Status>)
    requires
        prefix.len() == 2,
        prefix.is_prefix_of(name@),
    ensures
        status_result(res) == pod_spec(split_name_spec(name@.skip(2))),
{
    let n = name.unicode_len();
    let rest = name.substring_char(2, n);
    assert(rest@ =~= name@.skip(2));
    Name::parse(rest).pod()
}

/// The pod name in a pod ID (`p-` and the name).
pub fn parse_pod_prefixed_name(name: &str) -> (res: Result<PodName, Status>)
    requires
        pod_id_prefix().is_prefix_of(name@),
    ensures
        status_result(res) == pod_spec(split_name_spec(name@.skip(2))),
{
    parse_prefixed(name, Ghost(pod_id_prefix()))
}

/// The pod name in a container ID (`c-` and the name).
pub fn parse_container_prefixed_name(name: &str) -> (res: Result<PodName, Status>)
    requires
        container_id_prefix().is_prefix_of(name@),
    ensures
        status_result(res) == pod_spec(split_name_spec(name@.skip(2))),
{
    parse_prefixed(name, Ghost(container_id_prefix()))
}

/// The state of a pod sandbox in the CRI.
#[derive(Clone, Copy, Debug, PartialEq, Eq, Structural)]
pub enum PodSandboxState {
    SandboxReady,
    SandboxNotready,
}

/// The state of a container in the CRI.
#[derive(Clone, Copy, Debug, PartialEq, Eq, Structural)]
pub enum ContainerState {
    ContainerCreated,
    ContainerRunning,
    ContainerExited,
    ContainerUnknown,
}

impl PodSandboxState {
    /// The state's number on the wire.
    pub fn value(&self) -> (v: i32)
        ensures
            v == (match *self {
                PodSandboxState::SandboxReady => 0i32,
                PodSandboxState::SandboxNotready => 1i32,
            }),
    {
        match self {
            PodSandboxState::SandboxReady => 0,
            PodSandboxState::SandboxNotready => 1,
        }
    }
}

/// The wire number of a container state.
pub open spec fn container_state_value(s: ContainerState) -> i32 {
    match s {
        ContainerState::ContainerCreated => 0i32,
        ContainerState::ContainerRunning => 1i32,
        ContainerState::ContainerExited => 2i32,
        ContainerState::ContainerUnknown => 3i32,
    }
}

impl ContainerState {
    /// The state's number on the wire.
    pub fn value(&self) -> (v: i32)
        ensures
            v == container_state_value(*self),
    {
        match self {
            ContainerState::ContainerCreated => 0,
            ContainerState::ContainerRunning => 1,
            ContainerState::ContainerExited => 2,
            ContainerState::ContainerUnknown => 3,
        }
    }
}

/// The sandbox state of a pod: ready until the pod is killed.
pub open spec fn sandbox_state_of(state: PodState) -> PodSandboxState {
    match state {
        PodState::Killed => PodSandboxState::SandboxNotready,
        _ => PodSandboxState::SandboxReady,
    }
}

/// The CRI sandbox state of a pod state.
pub fn pod_state_to_cri_pod_state(state: PodState) -> (s: PodSandboxState)
    ensures
        s == sandbox_state_of(state),
{
    match state {
        PodState::Initiated | PodState::Created | PodState::Starting | PodState::Running
        | PodState::Stopped | PodState::Removed => PodSandboxState::SandboxReady,
        PodState::Killed => PodSandboxState::SandboxNotready,
    }
}

/// The container state of a pod: unknown before a container is created, exited once it
/// is stopped (and after it is removed, or the pod killed).
pub open spec fn container_state_of(state: PodState) -> ContainerState {
    match state {
        PodState::Initiated => ContainerState::ContainerUnknown,
        PodState::Created | PodState::Starting => ContainerState::ContainerCreated,
        PodState::Running => ContainerState::ContainerRunning,
        PodState::Stopped | PodState::Removed | PodState::Killed => ContainerState::ContainerExited,
    }
}

/// The CRI container state of a pod state.
pub fn pod_state_to_cri_container_state(state: PodState) -> (s: ContainerState)
    ensures
        s == container_state_of(state),
{
    match state {
        PodState::Initiated => ContainerState::ContainerUnknown,
        PodState::Created | PodState::Starting => ContainerState::ContainerCreated,
        PodState::Running => ContainerState::ContainerRunning,
        PodState::Stopped | PodState::Removed | PodState::Killed => ContainerState::ContainerExited,
    }
}

/// The pod states a filter on a CRI container state (by its wire number) selects; an
/// unknown number selects every state in which a container exists.
pub open spec fn pod_states_of_container_state(value: i32) -> Seq<PodState> {
    if value == 0 {
        seq![PodState::Created, PodState::Starting]
    } else if value == 1 {
        seq![PodState::Running]
    } else if value == 2 {
        seq![PodState::Stopped, PodState::Removed, PodState::Killed]
    } else if value == 3 {
        seq![]
    } else {
        seq![PodState::Created, PodState::Starting, PodState::Running, PodState::Stopped]
    }
}

/// The pod states that a filter on a CRI container state selects.
pub fn cri_container_state_to_pod_states(value: i32) -> (r: Vec<PodState>)
    ensures
        r@ == pod_states_of_container_state(value),
{
    let r = if value == 0 {
        vec![PodState::Created, PodState::Starting]
    } else if value == 1 {
        vec![PodState::Running]
    } else if value == 2 {
        vec![PodState::Stopped, PodState::Removed, PodState::Killed]
    } else if value == 3 {
        vec![]
    } else {
        vec![PodState::Created, PodState::Starting, PodState::Running, PodState::Stopped]
    };
    assert(r@ =~= pod_states_of_container_state(value));
    r
}

/// The filters on container states agree with the states reported: a pod that the filter
/// on a known state (created, running or exited) selects reports that state, and a pod
/// whose container was created is selected by the filter on the state it reports.
pub proof fn lemma_container_state_filter(state: PodState, value: i32)
    ensures
        0 <= value <= 2 && pod_states_of_container_state(value).contains(state)
            ==> container_state_value(container_state_of(state)) == value,
        !(state is Initiated) ==> pod_states_of_container_state(
            container_state_value(container_state_of(state)),
        ).contains(state),
{
    let s = pod_states_of_container_state(container_state_value(container_state_of(state)));
    if state is Created || state is Running || state is Stopped {
        assert(s[0] == state);
    } else if state is Starting || state is Removed {
        assert(s[1] == state);
    } else if state is Killed {
        assert(s[2] == state);
    }
}

/// The image reference reported for containers (not tracked yet).
pub fn cri_image_ref() -> (s: String)
    ensures
        s@ == seq!['T', 'O', 'D', 'O'],
{
    let s = String::from_str("TODO");
    proof {
        reveal_strlit("TODO");
    }
    s
}

/// The image ID reported for containers (not tracked yet).
pub fn cri_image_id() -> (s: String)
    ensures
        s@ == seq!['T', 'O', 'D', 'O'],
{
    let s = String::from_str("TODO");
    proof {
        reveal_strlit("TODO");
    }
    s
}

/// The log path reported for containers: logs go out by OTLP, not to files.
pub fn cri_container_log_path() -> (s: String)
    ensures
        s@ == seq!['/', 'd', 'e', 'v', '/', 'n', 'u', 'l', 'l'],
{
    let s = String::from_str("/dev/null");
    proof {
        reveal_strlit("/dev/null");
    }
    s
}

/// The label that names a pod's domain.
pub open spec fn label_domain_key() -> Seq<char> {
    "vimana.host/domain"@
}

/// The label that names a pod's service.
pub open spec fn label_service_key() -> Seq<char> {
    "vimana.host/service"@
}

/// The label that names a pod's version.
pub open spec fn label_version_key() -> Seq<char> {
    "vimana.host/version"@
}

/// What [`component_name_from_labels`] returns for the labels' map: the component named
/// by the domain, service and version labels, which must all be present.
pub open spec fn component_from_labels_spec(labels: Map<Seq<char>, Seq<char>>) -> Result<
    ComponentNameView,
    StatusView,
> {
    if !labels.contains_key(label_domain_key()) {
        Err(status(Code::InvalidArgument, "expected-domain-label"))
    } else {
        match domain_uuid_spec(encode_utf8(labels[label_domain_key()])) {
            Err(e) => Err(e),
            Ok(domain) => if !labels.contains_key(label_service_key()) {
                Err(status(Code::InvalidArgument, "expected-service-label"))
            } else if !labels.contains_key(label_version_key()) {
                Err(status(Code::InvalidArgument, "expected-version-label"))
            } else {
                component_name_spec(
                    domain,
                    labels[label_service_key()],
                    labels[label_version_key()],
                )
            },
        }
    }
}

/// The component a pod runs, read from the labels every pod of this runtime carries.
pub fn component_name_from_labels(labels: &Vec<(String, String)>) -> (res: Result<
    ComponentName,
    Status,
>)
    ensures
        status_result(res) == component_from_labels_spec(pairs_map(pairs_view(labels@))),
{
    let domain_key = String::from_str("vimana.host/domain");
    let service_key = String::from_str("vimana.host/service");
    let version_key = String::from_str("vimana.host/version");
    let domain_text = match lookup(labels, &domain_key) {
        Some(d) => d,
        None => return Err(Status::invalid_argument("expected-domain-label")),
    };
    let domain = match DomainUuid::parse(domain_text.as_str()) {
        Ok(d) => d,
        Err(e) => return Err(e),
    };
    let service = match lookup(labels, &service_key) {
        Some(s) => s,
        None => return Err(Status::invalid_argument("expected-service-label")),
    };
    let version = match lookup(labels, &version_key) {
        Some(v) => v,
        None => return Err(Status::invalid_argument("expected-version-label")),
    };
    ComponentName::new(domain, service.as_str(), version.as_str())
}

/// The four parts of an image spec `<registry>/<domain>/<server>:<version>`.
pub struct ImageSpecParts {
    pub registry: Seq<char>,
    pub domain: Seq<char>,
    pub server: Seq<char>,
    pub version: Seq<char>,
}

/// How an image spec splits: the registry up to the first `/`, the domain up to the
/// second, the server up to the next `:`, and the version after it, which holds no line
/// break. `None` when a separator is missing or the version holds a line break.
pub open spec fn image_spec_parts(s: Seq<char>) -> Option<ImageSpecParts> {
    let a = first_of(s, '/');
    let rest1 = s.subrange(a + 1, s.len() as int);
    let b = first_of(rest1, '/');
    let rest2 = rest1.subrange(b + 1, rest1.len() as int);
    let c = first_of(rest2, ':');
    let version = rest2.subrange(c + 1, rest2.len() as int);
    if a >= s.len() || b >= rest1.len() || c >= rest2.len() || version.contains('\n') {
        None
    } else {
        Some(
            ImageSpecParts {
                registry: s.subrange(0, a),
                domain: rest1.subrange(0, b),
                server: rest2.subrange(0, c),
                version,
            },
        )
    }
}

/// Why an image spec names no component.
#[derive(Clone, Copy, Debug)]
pub enum ImageSpecError {
    /// The spec is not of the form `<registry>/<domain>/<server>:<version>`.
    Malformed,
    /// The domain, server or version is not valid.
    InvalidName(Status),
}

/// The model of an image spec error.
pub enum ImageSpecErrorView {
    Malformed,
    InvalidName(StatusView),
}

impl View for ImageSpecError {
    type V = ImageSpecErrorView;

    open spec fn view(&self) -> ImageSpecErrorView {
        match self {
            ImageSpecError::Malformed => ImageSpecErrorView::Malformed,
            ImageSpecError::InvalidName(s) => ImageSpecErrorView::InvalidName(s@),
        }
    }
}

/// What [`registry_and_component_from_image_spec`] returns: the registry and the
/// component an image spec names.
pub open spec fn image_spec_component(s: Seq<char>) -> Result<
    (Seq<char>, ComponentNameView),
    ImageSpecErrorView,
> {
    match image_spec_parts(s) {
        None => Err(ImageSpecErrorView::Malformed),
        Some(p) => match domain_uuid_spec(encode_utf8(p.domain)) {
            Err(e) => Err(ImageSpecErrorView::InvalidName(e)),
            Ok(domain) => match component_name_spec(domain, p.server, p.version) {
                Err(e) => Err(ImageSpecErrorView::InvalidName(e)),
                Ok(c) => Ok((p.registry, c)),
            },
        },
    }
}

/// The registry and the component named by an image spec
/// `<registry>/<domain>/<server>:<version>`.
pub fn registry_and_component_from_image_spec(image_id: &str) -> (res: Result<
    (String, ComponentName),
    ImageSpecError,
>)
    ensures
        match res {
            Ok((registry, component)) => image_spec_component(image_id@) == Ok::<
                (Seq<char>, ComponentNameView),
                ImageSpecErrorView,
            >((registry@, component@)),
            Err(e) => image_spec_component(image_id@) == Err::<
                (Seq<char>, ComponentNameView),
                ImageSpecErrorView,
            >(e@),
        },
{
    let chars = chars_of(image_id);
    let n = chars.len();
    let ghost s = image_id@;
    assert(s.subrange(0, n as int) =~= s);
    let a = find(chars.as_slice(), 0, '/');
    if a == n {
        return Err(ImageSpecError::Malformed);
    }
    let b = find(chars.as_slice(), a + 1, '/');
    let ghost rest1 = s.subrange(a + 1, n as int);
    assert(s.subrange(a + 1, n as int) =~= rest1);
    if b == n {
        return Err(ImageSpecError::Malformed);
    }
    let c = find(chars.as_slice(), b + 1, ':');
    let ghost rest2 = rest1.subrange(b - a, rest1.len() as int);
    assert(s.subrange(b + 1, n as int) =~= rest2);
    if c == n {
        return Err(ImageSpecError::Malformed);
    }
    let nl = find(chars.as_slice(), c + 1, '\n');
    let ghost version = rest2.subrange(c - b, rest2.len() as int);
    assert(s.subrange(c + 1, n as int) =~= version);
    if nl < n {
        proof {
            crate::text::lemma_first_of2_props(version, '\n', '\n');
            assert(version[nl - c - 1] == '\n');
        }
        return Err(ImageSpecError::Malformed);
    }
    proof {
        crate::text::lemma_first_of2_props(version, '\n', '\n');
        assert forall|j: int| 0 <= j < version.len() implies version[j] != '\n' by {}
    }
    let registry = image_id.substring_char(0, a);
    let domain = image_id.substring_char(a + 1, b);
    let server = image_id.substring_char(b + 1, c);
    let version_text = image_id.substring_char(c + 1, n);
    assert(registry@ =~= s.subrange(0, a as int));
    assert(domain@ =~= rest1.subrange(0, b - a - 1));
    assert(server@ =~= rest2.subrange(0, c - b - 1));
    assert(version_text@ =~= version);
    let parsed = match DomainUuid::parse(domain) {
        Ok(d) => d,
        Err(e) => return Err(ImageSpecError::InvalidName(e)),
    };
    match ComponentName::new(parsed, server, version_text) {
        Ok(name) => Ok((registry.to_owned(), name)),
        Err(e) => Err(ImageSpecError::InvalidName(e)),
    }
}

/// Whether a pod or container ID belongs to the downstream runtime: the downstream runtime
/// handed it out (`known_downstream`), or it bears neither of this runtime's prefixes.
pub fn is_downstream(id: &str, known_downstream: bool) -> (r: bool)
    ensures
        r == (known_downstream || !(pod_id_prefix().is_prefix_of(id@)
            || container_id_prefix().is_prefix_of(id@))),
{
    proof {
        reveal_strlit("p-");
        reveal_strlit("c-");
    }
    known_downstream || !(has_prefix(id, "p-") || has_prefix(id, "c-"))
}

/// The runtime handler under which pods run in this runtime.
pub open spec fn workd_handler() -> Seq<char> {
    "workd-handler"@
}

/// Where a `RunPodSandbox` request goes.
#[derive(Debug)]
pub enum SandboxRequest {
    /// To the downstream runtime: the request names another runtime handler.
    Downstream,
    /// To this runtime, for a pod of this component.
    Workd(ComponentName),
}

/// Why this runtime refuses a `RunPodSandbox` request.
#[derive(Clone, Copy, Debug)]
pub enum SandboxError {
    /// The labels do not name a component.
    InvalidLabels(Status),
    /// The pod asks for port mappings, which gRPC pods never have.
    PortMappings,
}

/// Where a `RunPodSandbox` request goes: downstream unless it names this runtime's handler;
/// then the labels must name a component, and the pod must ask for no port mapping.
pub fn admit_pod_sandbox(
    runtime_handler: &str,
    labels: &Vec<(String, String)>,
    port_mappings: usize,
) -> (r: Result<SandboxRequest, SandboxError>)
    ensures
        runtime_handler@ != workd_handler() ==> r matches Ok(SandboxRequest::Downstream),
        runtime_handler@ == workd_handler() ==> match component_from_labels_spec(
            pairs_map(pairs_view(labels@)),
        ) {
            Err(e) => r matches Err(SandboxError::InvalidLabels(s)) && s@ == e,
            Ok(c) => if port_mappings > 0 {
                r matches Err(SandboxError::PortMappings)
            } else {
                r matches Ok(SandboxRequest::Workd(n)) && n@ == c
            },
        },
{
    let handler = runtime_handler.to_owned();
    let workd = String::from_str("workd-handler");
    if !(handler == workd) {
        return Ok(SandboxRequest::Downstream);
    }
    match component_name_from_labels(labels) {
        Err(e) => Err(SandboxError::InvalidLabels(e)),
        Ok(c) => if port_mappings > 0 {
            Err(SandboxError::PortMappings)
        } else {
            Ok(SandboxRequest::Workd(c))
        },
    }
}

/// The runtime handler that requests for gRPC pods name.
pub open spec fn grpc_runtime_name() -> Seq<char> {
    "workd"@
}

/// The container ("internal") port of a gRPC pod's port mapping: the default HTTPS port.
pub const GRPC_INTERNAL_PORT: i32 = 443;

/// The CRI number of the TCP protocol.
pub const PROTOCOL_TCP: i32 = 0;

/// A port mapping of a pod sandbox config.
#[derive(Clone, Copy, Debug)]
pub struct PortMapping {
    /// The protocol, by its CRI number.
    pub protocol: i32,
    /// The port inside the pod.
    pub container_port: i32,
    /// The port on the host.
    pub host_port: i32,
}

/// What [`grpc_host_port`] returns: a gRPC pod has exactly one port mapping, over TCP,
/// from the HTTPS port inside the pod to a positive 16-bit port on the host.
pub open spec fn grpc_host_port_spec(mappings: Seq<PortMapping>) -> Result<u16, StatusView> {
    if mappings.len() != 1 {
        Err(status(Code::InvalidArgument, "grpc-port-mappings"))
    } else if mappings[0].protocol != PROTOCOL_TCP {
        Err(status(Code::InvalidArgument, "grpc-port-protocol"))
    } else if mappings[0].container_port != GRPC_INTERNAL_PORT {
        Err(status(Code::InvalidArgument, "grpc-port-internal"))
    } else if mappings[0].host_port <= 0 || mappings[0].host_port > 65535 {
        Err(status(Code::InvalidArgument, "grpc-port-external"))
    } else {
        Ok(mappings[0].host_port as u16)
    }
}

/// The host port of a gRPC pod, checked against the one shape of port mappings such a pod
/// may have.
pub fn grpc_host_port(mappings: &Vec<PortMapping>) -> (r: Result<u16, Status>)
    ensures
        match (r, grpc_host_port_spec(mappings@)) {
            (Ok(p), Ok(q)) => p == q,
            (Err(s), Err(e)) => s@ == e,
            _ => false,
        },
{
    if mappings.len() != 1 {
        return Err(Status::invalid_argument("grpc-port-mappings"));
    }
    let mapping = mappings[0];
    if mapping.protocol != PROTOCOL_TCP {
        return Err(Status::invalid_argument("grpc-port-protocol"));
    }
    if mapping.container_port != GRPC_INTERNAL_PORT {
        return Err(Status::invalid_argument("grpc-port-internal"));
    }
    if mapping.host_port <= 0 || mapping.host_port > 65535 {
        return Err(Status::invalid_argument("grpc-port-external"));
    }
    Ok(mapping.host_port as u16)
}

/// Where a `RunPodSandbox` request for a gRPC pod goes.
#[derive(Debug)]
pub enum GrpcSandboxRequest {
    /// To the downstream runtime: the request names another runtime handler.
    Downstream,
    /// To this runtime, for a pod of this component reached at this host port.
    Workd(ComponentName, u16),
}

/// Where a `RunPodSandbox` request for a gRPC pod goes: downstream unless it names the
/// `workd` handler; then the labels must name a component and the port mappings must have
/// the one shape that [`grpc_host_port`] takes.
pub fn admit_grpc_pod_sandbox(
    runtime_handler: &str,
    labels: &Vec<(String, String)>,
    port_mappings: &Vec<PortMapping>,
) -> (r: Result<GrpcSandboxRequest, Status>)
    ensures
        runtime_handler@ != grpc_runtime_name() ==> r matches Ok(GrpcSandboxRequest::Downstream),
        runtime_handler@ == grpc_runtime_name() ==> match component_from_labels_spec(
            pairs_map(pairs_view(labels@)),
        ) {
            Err(e) => r matches Err(s) && s@ == e,
            Ok(c) => match grpc_host_port_spec(port_mappings@) {
                Err(e) => r matches Err(s) && s@ == e,
                Ok(p) => r matches Ok(GrpcSandboxRequest::Workd(n, q)) && n@ == c && q == p,
            },
        },
{
    let handler = runtime_handler.to_owned();
    let workd = String::from_str("workd");
    proof {
        reveal_strlit("workd");
    }
    if !(handler == workd) {
        return Ok(GrpcSandboxRequest::Downstream);
    }
    let component = match component_name_from_labels(labels) {
        Ok(c) => c,
        Err(e) => return Err(e),
    };
    match grpc_host_port(port_mappings) {
        Ok(port) => Ok(GrpcSandboxRequest::Workd(component, port)),
        Err(e) => Err(e),
    }
}

/// The image spec of a `CreateContainer` request, as far as this runtime reads it.
pub struct ContainerImageSpec<'a> {
    /// The image named.
    pub image: &'a str,
    /// The runtime handler named.
    pub runtime_handler: &'a str,
    /// How many annotations the spec carries.
    pub annotations: usize,
    /// The image as the user wrote it.
    pub user_specified_image: &'a str,
}

/// Where a `CreateContainer` request for a gRPC pod goes.
#[derive(Debug)]
pub enum GrpcContainerRequest {
    /// To the downstream runtime: the pod sandbox ID bears the downstream prefix.
    Downstream,
    /// To this runtime, for the container of this pod.
    Workd(PodName),
}

/// What [`admit_grpc_container`] returns for a pod sandbox ID with this runtime's prefix:
/// the pod named by the ID, which the labels must name too (its component), which the
/// image must name (the component's textual form) under the `workd` handler, with neither
/// annotations nor a user-specified image.
pub open spec fn grpc_container_spec(
    id: Seq<char>,
    labels: Map<Seq<char>, Seq<char>>,
    image: Seq<char>,
    handler: Seq<char>,
    annotations: usize,
    user_image: Seq<char>,
) -> Result<PodNameView, StatusView> {
    match pod_spec(split_name_spec(id.skip(2))) {
        Err(e) => Err(e),
        Ok(pod) => match component_from_labels_spec(labels) {
            Err(e) => Err(e),
            Ok(c) => if c != pod.component {
                Err(status(Code::InvalidArgument, "create-container-labels-pod-mismatch"))
            } else if image != component_name_text(pod.component) {
                Err(status(Code::InvalidArgument, "create-container-labels-image-mismatch"))
            } else if handler != grpc_runtime_name() {
                Err(status(Code::InvalidArgument, "create-container-invalid-runtime"))
            } else if annotations > 0 {
                Err(status(Code::InvalidArgument, "create-container-image-annotations"))
            } else if user_image.len() > 0 {
                Err(status(Code::InvalidArgument, "create-container-user-specified-image"))
            } else {
                Ok(pod)
            },
        },
    }
}

/// Where a `CreateContainer` request for a gRPC pod goes: downstream when the pod sandbox
/// ID bears the downstream prefix; else to the pod the ID names, once the labels and the
/// image spec agree with it.
pub fn admit_grpc_container(
    pod_sandbox_id: &str,
    labels: &Vec<(String, String)>,
    image: &ContainerImageSpec,
) -> (r: Result<GrpcContainerRequest, Status>)
    requires
        oci_id_prefix().is_prefix_of(pod_sandbox_id@) || workd_id_prefix().is_prefix_of(
            pod_sandbox_id@,
        ),
    ensures
        oci_id_prefix().is_prefix_of(pod_sandbox_id@) ==> r matches Ok(
            GrpcContainerRequest::Downstream,
        ),
        !oci_id_prefix().is_prefix_of(pod_sandbox_id@) ==> match grpc_container_spec(
            pod_sandbox_id@,
            pairs_map(pairs_view(labels@)),
            image.image@,
            image.runtime_handler@,
            image.annotations,
            image.user_specified_image@,
        ) {
            Err(e) => r matches Err(s) && s@ == e,
            Ok(p) => r matches Ok(GrpcContainerRequest::Workd(n)) && n@ == p,
        },
{
    proof {
        reveal_strlit("O:");
        reveal_strlit("workd");
    }
    if has_prefix(pod_sandbox_id, "O:") {
        return Ok(GrpcContainerRequest::Downstream);
    }
    let pod = match parse_prefixed(pod_sandbox_id, Ghost(workd_id_prefix())) {
        Ok(p) => p,
        Err(e) => return Err(e),
    };
    let component = match component_name_from_labels(labels) {
        Ok(c) => c,
        Err(e) => return Err(e),
    };
    if !same_component(&component, &pod.component) {
        return Err(Status::invalid_argument("create-container-labels-pod-mismatch"));
    }
    let image_name = image.image.to_owned();
    let component_text = pod.component.to_string();
    if !(image_name == component_text) {
        return Err(Status::invalid_argument("create-container-labels-image-mismatch"));
    }
    let handler = image.runtime_handler.to_owned();
    let workd = String::from_str("workd");
    if !(handler == workd) {
        return Err(Status::invalid_argument("create-container-invalid-runtime"));
    }
    if image.annotations > 0 {
        return Err(Status::invalid_argument("create-container-image-annotations"));
    }
    if !image.user_specified_image.is_empty() {
        return Err(Status::invalid_argument("create-container-user-specified-image"));
    }
    Ok(GrpcContainerRequest::Workd(pod))
}

/// The pod states that a filter on sandbox readiness selects: every state when there is
/// no filter, the ready ones (all but `Killed`) or the one that is not.
pub open spec fn pod_states_of_sandbox_readiness(ready: Option<bool>) -> Seq<PodState> {
    match ready {
        None => seq![],
        Some(true) => seq![
            PodState::Initiated,
            PodState::Created,
            PodState::Starting,
            PodState::Running,
            PodState::Stopped,
            PodState::Removed,
        ],
        Some(false) => seq![PodState::Killed],
    }
}

/// The pod states that a filter on sandbox readiness selects.
pub fn cri_sandbox_readiness_to_pod_states(ready: Option<bool>) -> (r: Vec<PodState>)
    ensures
        r@ == pod_states_of_sandbox_readiness(ready),
{
    let r = match ready {
        None => vec![],
        Some(true) => vec![
            PodState::Initiated,
            PodState::Created,
            PodState::Starting,
            PodState::Running,
            PodState::Stopped,
            PodState::Removed,
        ],
        Some(false) => vec![PodState::Killed],
    };
    assert(r@ =~= pod_states_of_sandbox_readiness(ready));
    r
}

/// A readiness filter selects exactly the pods whose sandbox state it asks for.
pub proof fn lemma_sandbox_readiness_filter(state: PodState, ready: bool)
    ensures
        pod_states_of_sandbox_readiness(Some(ready)).contains(state) <==> ((sandbox_state_of(state)
            == PodSandboxState::SandboxReady) == ready),
{
    let s = pod_states_of_sandbox_readiness(Some(ready));
    if (sandbox_state_of(state) == PodSandboxState::SandboxReady) == ready {
        if ready {
            if state is Initiated {
                assert(s[0] == state);
            } else if state is Created {
                assert(s[1] == state);
            } else if state is Starting {
                assert(s[2] == state);
            } else if state is Running {
                assert(s[3] == state);
            } else if state is Stopped {
                assert(s[4] == state);
            } else {
                assert(s[5] == state);
            }
        } else {
            assert(s[0] == state);
        }
    }
}

/// The seconds a `StopContainer` request gives the server to stop gracefully: its timeout,
/// or none when the timeout is negative.
pub fn stop_timeout_secs(timeout: i64) -> (secs: u64)
    ensures
        timeout >= 0 ==> secs == timeout,
        timeout < 0 ==> secs == 0,
{
    if timeout < 0 {
        0
    } else {
        timeout as u64
    }
}

/// The message of a `CreateContainer` request refused for image spec annotations, which
/// this runtime does not take.
pub fn check_image_spec_annotations(annotations: usize) -> (r: Result<(), &'static str>)
    ensures
        annotations == 0 ==> r is Ok,
        annotations > 0 ==> (r matches Err(m) && m@ == "Image spec annotations are unsupported"@),
{
    if annotations > 0 {
        Err("Image spec annotations are unsupported")
    } else {
        Ok(())
    }
}

/// Whether a pod in this state has a container (created and not removed yet).
pub open spec fn has_container(state: PodState) -> bool {
    state is Created || state is Starting || state is Running || state is Stopped
}

/// Whether a pod in this state has a container: a pod sandbox's status lists its
/// container's status only then.
pub fn pod_has_container(state: PodState) -> (r: bool)
    ensures
        r == has_container(state),
{
    match state {
        PodState::Created | PodState::Starting | PodState::Running | PodState::Stopped => true,
        PodState::Initiated | PodState::Removed | PodState::Killed => false,
    }
}

/// A copy of a list of string pairs.
fn clone_pairs(pairs: &Vec<(String, String)>) -> (r: Vec<(String, String)>)
    ensures
        pairs_view(r@) == pairs_view(pairs@),
{
    let mut r: Vec<(String, String)> = Vec::new();
    let mut i: usize = 0;
    while i < pairs.len()
        invariant
            i <= pairs@.len(),
            r@.len() == i,
            forall|j: int| 0 <= j < i ==> (#[trigger] r@[j]).0@ == pairs@[j].0@ && r@[j].1@ == pairs@[j].1@,
        decreases pairs@.len() - i,
    {
        r.push((pairs[i].0.clone(), pairs[i].1.clone()));
        i = i + 1;
    }
    assert(pairs_view(r@) =~= pairs_view(pairs@));
    r
}

/// A copy of container metadata.
fn clone_metadata(m: &Option<ContainerMetadata>) -> (r: Option<ContainerMetadata>)
    ensures
        metadata_view(r) == metadata_view(*m),
{
    match m {
        Some(m) => Some(ContainerMetadata { name: m.name.clone(), attempt: m.attempt }),
        None => None,
    }
}

/// A pod sandbox as `ListPodSandbox` reports it.
#[derive(Debug)]
pub struct CriPodSandbox {
    pub id: String,
    pub runtime_handler: String,
    pub state: PodSandboxState,
    pub created_at: i64,
    pub labels: Vec<(String, String)>,
    pub annotations: Vec<(String, String)>,
}

/// The pod sandbox of a pod: its prefixed ID, this runtime's handler, its sandbox state,
/// and its creation time, labels and annotations.
pub fn cri_pod_sandbox(name: &PodName, pod: &PodRecord) -> (r: CriPodSandbox)
    ensures
        r.id@ == pod_id_prefix() + pod_name_text(name@),
        r.runtime_handler@ == workd_handler(),
        r.state == sandbox_state_of(pod.state),
        r.created_at == pod.pod_created_at,
        pairs_view(r.labels@) == pairs_view(pod.pod_labels@),
        pairs_view(r.annotations@) == pairs_view(pod.pod_annotations@),
{
    CriPodSandbox {
        id: pod_prefix(name),
        runtime_handler: String::from_str("workd-handler"),
        state: pod_state_to_cri_pod_state(pod.state),
        created_at: pod.pod_created_at,
        labels: clone_pairs(&pod.pod_labels),
        annotations: clone_pairs(&pod.pod_annotations),
    }
}

/// A container as `ListContainers` reports it.
#[derive(Debug)]
pub struct CriContainer {
    pub id: String,
    pub pod_sandbox_id: String,
    pub metadata: Option<ContainerMetadata>,
    pub image_ref: String,
    pub state: ContainerState,
    pub created_at: i64,
    pub labels: Vec<(String, String)>,
    pub annotations: Vec<(String, String)>,
    pub image_id: String,
}

/// The container of a pod: its prefixed IDs, its metadata, container state, creation
/// time, labels and annotations, and the image placeholders.
pub fn cri_container(name: &PodName, pod: &PodRecord) -> (r: CriContainer)
    ensures
        r.id@ == container_id_prefix() + pod_name_text(name@),
        r.pod_sandbox_id@ == pod_id_prefix() + pod_name_text(name@),
        metadata_view(r.metadata) == metadata_view(pod.container.metadata),
        r.image_ref@ == seq!['T', 'O', 'D', 'O'],
        r.state == container_state_of(pod.state),
        r.created_at == pod.container_created_at,
        pairs_view(r.labels@) == pairs_view(pod.container.labels@),
        pairs_view(r.annotations@) == pairs_view(pod.container.annotations@),
        r.image_id@ == seq!['T', 'O', 'D', 'O'],
{
    CriContainer {
        id: container_prefix(name),
        pod_sandbox_id: pod_prefix(name),
        metadata: clone_metadata(&pod.container.metadata),
        image_ref: cri_image_ref(),
        state: pod_state_to_cri_container_state(pod.state),
        created_at: pod.container_created_at,
        labels: clone_pairs(&pod.container.labels),
        annotations: clone_pairs(&pod.container.annotations),
        image_id: cri_image_id(),
    }
}

/// A container's status as `ContainerStatus` reports it.
#[derive(Debug)]
pub struct CriContainerStatus {
    pub id: String,
    pub metadata: Option<ContainerMetadata>,
    pub state: ContainerState,
    pub created_at: i64,
    pub started_at: i64,
    pub finished_at: i64,
    pub exit_code: i32,
    pub image_ref: String,
    pub reason: String,
    pub message: String,
    pub labels: Vec<(String, String)>,
    pub annotations: Vec<(String, String)>,
    pub log_path: String,
    pub image_id: String,
}

/// The status of a pod's container: its prefixed ID, metadata, state and times, exit
/// code 0, labels and annotations, and the placeholders (`TODO`, `/dev/null`).
pub fn cri_container_status(name: &PodName, pod: &PodRecord) -> (r: CriContainerStatus)
    ensures
        r.id@ == container_id_prefix() + pod_name_text(name@),
        metadata_view(r.metadata) == metadata_view(pod.container.metadata),
        r.state == container_state_of(pod.state),
        r.created_at == pod.container_created_at,
        r.started_at == pod.container_started_at,
        r.finished_at == pod.container_finished_at,
        r.exit_code == 0,
        r.image_ref@ == seq!['T', 'O', 'D', 'O'],
        r.reason@ == seq!['T', 'O', 'D', 'O'],
        r.message@ == seq!['T', 'O', 'D', 'O'],
        pairs_view(r.labels@) == pairs_view(pod.container.labels@),
        pairs_view(r.annotations@) == pairs_view(pod.container.annotations@),
        r.log_path@ == seq!['/', 'd', 'e', 'v', '/', 'n', 'u', 'l', 'l'],
        r.image_id@ == seq!['T', 'O', 'D', 'O'],
{
    let reason = String::from_str("TODO");
    let message = String::from_str("TODO");
    proof {
        reveal_strlit("TODO");
    }
    CriContainerStatus {
        id: container_prefix(name),
        metadata: clone_metadata(&pod.container.metadata),
        state: pod_state_to_cri_container_state(pod.state),
        created_at: pod.container_created_at,
        started_at: pod.container_started_at,
        finished_at: pod.container_finished_at,
        exit_code: 0,
        image_ref: cri_image_ref(),
        reason,
        message,
        labels: clone_pairs(&pod.container.labels),
        annotations: clone_pairs(&pod.container.annotations),
        log_path: cri_container_log_path(),
        image_id: cri_image_id(),
    }
}

/// A pod sandbox's status as `PodSandboxStatus` reports it.
#[derive(Debug)]
pub struct CriPodSandboxStatus {
    pub id: String,
    pub state: PodSandboxState,
    pub created_at: i64,
    pub ip: String,
    pub labels: Vec<(String, String)>,
    pub annotations: Vec<(String, String)>,
    pub runtime_handler: String,
}

/// The status of a pod sandbox, with its address `ip`, and that of its container when it
/// has one (an empty or one-item list).
pub fn cri_pod_sandbox_status(name: &PodName, pod: &PodRecord, ip: String) -> (r: (
    CriPodSandboxStatus,
    Vec<CriContainerStatus>,
))
    ensures
        r.0.id@ == pod_id_prefix() + pod_name_text(name@),
        r.0.state == sandbox_state_of(pod.state),
        r.0.created_at == pod.pod_created_at,
        r.0.ip == ip,
        pairs_view(r.0.labels@) == pairs_view(pod.pod_labels@),
        pairs_view(r.0.annotations@) == pairs_view(pod.pod_annotations@),
        r.0.runtime_handler@ == workd_handler(),
        has_container(pod.state) ==> r.1@.len() == 1 && r.1@[0].id@ == container_id_prefix()
            + pod_name_text(name@) && r.1@[0].state == container_state_of(pod.state),
        !has_container(pod.state) ==> r.1@.len() == 0,
{
    let status = CriPodSandboxStatus {
        id: pod_prefix(name),
        state: pod_state_to_cri_pod_state(pod.state),
        created_at: pod.pod_created_at,
        ip,
        labels: clone_pairs(&pod.pod_labels),
        annotations: clone_pairs(&pod.pod_annotations),
        runtime_handler: String::from_str("workd-handler"),
    };
    let mut containers: Vec<CriContainerStatus> = Vec::new();
    if pod_has_container(pod.state) {
        containers.push(cri_container_status(name, pod));
    }
    (status, containers)
}

/// Whether a pod of a table is listed under a filter.
pub open spec fn listed(
    table: Map<PodId, PodRecord>,
    pod: PodId,
    container_labels: bool,
    labels: Seq<(Seq<char>, Seq<char>)>,
    states: Seq<PodState>,
) -> bool {
    table.contains_key(pod) && pod_matches(
        table[pod].state,
        filtered_labels(table[pod], container_labels),
        labels,
        states,
    )
}

/// The pods of this runtime that `ListPodSandbox` (on sandbox labels) or `ListContainers`
/// (on container labels) reports, under a filter: with an ID in the filter (prefixed with
/// `p-` or `c-`), the one pod it names if it matches (a malformed ID names none; the pod is
/// found by its number alone); without, every matching pod, each once.
pub fn list_upstream(
    table: &PodTable,
    filter_id: &str,
    container_labels: bool,
    labels: &Vec<(String, String)>,
    states: &Vec<PodState>,
) -> (ids: Vec<PodId>)
    requires
        filter_id@.len() == 0 || (if container_labels {
            container_id_prefix()
        } else {
            pod_id_prefix()
        }).is_prefix_of(filter_id@),
    ensures
        filter_id@.len() == 0 ==> {
            &&& ids@.no_duplicates()
            &&& forall|id: PodId|
                #![trigger ids@.contains(id)]
                ids@.contains(id) <==> listed(table@, id, container_labels, pairs_view(labels@), states@)
        },
        filter_id@.len() > 0 ==> match pod_spec(split_name_spec(filter_id@.skip(2))) {
            Ok(name) => if listed(table@, name.pod, container_labels, pairs_view(labels@), states@) {
                ids@ == seq![name.pod]
            } else {
                ids@.len() == 0
            },
            Err(_) => ids@.len() == 0,
        },
{
    if filter_id.unicode_len() == 0 {
        return table.list(container_labels, labels, states);
    }
    let parsed = if container_labels {
        parse_container_prefixed_name(filter_id)
    } else {
        parse_pod_prefixed_name(filter_id)
    };
    let mut ids: Vec<PodId> = Vec::new();
    match parsed {
        Ok(name) => {
            if table.matches(name.pod, container_labels, labels, states) {
                ids.push(name.pod);
                assert(ids@ =~= seq![name.pod]);
            }
        },
        Err(_) => {},
    }
    ids
}

/// Whether two component names are the same.
pub fn same_component(a: &ComponentName, b: &ComponentName) -> (r: bool)
    ensures
        r == (a@ == b@),
{
    let mut same_domain = true;
    let mut i: usize = 0;
    while i < 16
        invariant
            i <= 16,
            a.service.domain.uuid@.len() == 16,
            b.service.domain.uuid@.len() == 16,
            same_domain == forall|j: int| 0 <= j < i ==> a.service.domain.uuid@[j]
                == b.service.domain.uuid@[j],
        decreases 16 - i,
    {
        if a.service.domain.uuid[i] != b.service.domain.uuid[i] {
            same_domain = false;
        }
        i = i + 1;
    }
    let r = same_domain && a.service.service == b.service.service && a.version == b.version;
    proof {
        if same_domain {
            assert(a.service.domain.uuid@ =~= b.service.domain.uuid@);
        }
        if !same_domain {
            assert(a@.service.domain != b@.service.domain);
        }
    }
    r
}

/// Where an image request goes.
#[derive(Debug)]
pub enum ImageRequest {
    /// To the downstream runtime: the image spec names another runtime handler.
    Downstream,
    /// To this runtime's store: the registry and the component the image spec names.
    Workd(String, ComponentName),
}

/// Why this runtime refuses a `PullImage` request.
#[derive(Clone, Copy, Debug)]
pub enum PullError {
    /// The image spec names no component.
    InvalidImage(ImageSpecError),
    /// The pod's labels name no component.
    InvalidLabels(Status),
    /// The image spec and the pod's labels name different components.
    LabelMismatch,
}

/// Where an `ImageStatus` or `RemoveImage` request goes: downstream when its image spec
/// names another runtime handler (`handler`, when the request has an image spec); else to
/// the store, for the registry and the component the image spec names.
pub fn admit_image_request(handler: Option<&str>, image: &str) -> (r: Result<ImageRequest, ImageSpecError>)
    ensures
        (handler matches Some(h) && h@ != workd_handler()) ==> r matches Ok(ImageRequest::Downstream),
        !(handler matches Some(h) && h@ != workd_handler()) ==> match image_spec_component(image@) {
            Ok((registry, name)) => r matches Ok(ImageRequest::Workd(g, n)) && g@ == registry && n@
                == name,
            Err(e) => r matches Err(x) && x@ == e,
        },
{
    if let Some(h) = handler {
        let h = h.to_owned();
        let workd = String::from_str("workd-handler");
        if !(h == workd) {
            return Ok(ImageRequest::Downstream);
        }
    }
    match registry_and_component_from_image_spec(image) {
        Ok((registry, name)) => Ok(ImageRequest::Workd(registry, name)),
        Err(e) => Err(e),
    }
}

/// Where a `PullImage` request goes: as [`admit_image_request`], and when it goes to the
/// store, the pod's labels must name the same component as the image spec.
pub fn admit_pull_image(handler: Option<&str>, image: &str, pod_labels: &Vec<(String, String)>) -> (r:
    Result<ImageRequest, PullError>)
    ensures
        (handler matches Some(h) && h@ != workd_handler()) ==> r matches Ok(ImageRequest::Downstream),
        !(handler matches Some(h) && h@ != workd_handler()) ==> match image_spec_component(image@) {
            Err(e) => r matches Err(PullError::InvalidImage(x)) && x@ == e,
            Ok((registry, from_image)) => match component_from_labels_spec(
                pairs_map(pairs_view(pod_labels@)),
            ) {
                Err(e) => r matches Err(PullError::InvalidLabels(x)) && x@ == e,
                Ok(from_labels) => if from_labels == from_image {
                    r matches Ok(ImageRequest::Workd(g, n)) && g@ == registry && n@ == from_image
                } else {
                    r matches Err(PullError::LabelMismatch)
                },
            },
        },
{
    match admit_image_request(handler, image) {
        Err(e) => Err(PullError::InvalidImage(e)),
        Ok(ImageRequest::Downstream) => Ok(ImageRequest::Downstream),
        Ok(ImageRequest::Workd(registry, from_image)) => match component_name_from_labels(pod_labels) {
            Err(e) => Err(PullError::InvalidLabels(e)),
            Ok(from_labels) => if same_component(&from_image, &from_labels) {
                Ok(ImageRequest::Workd(registry, from_image))
            } else {
                Err(PullError::LabelMismatch)
            },
        },
    }
}

} // verus!
