//! The data plane: how a gRPC request names the component and the method it is for.
//!
//! The authority header holds the component's domain, the version header its version, and
//! the path header `/<service>/<rpc>` its service and the method.

use vstd::prelude::*;
use vstd::utf8::encode_utf8;

use crate::runtime::error::{Status, StatusView};
use crate::runtime::names::{component_name_spec, domain_uuid_spec, ComponentName, ComponentNameView, DomainUuid};
use crate::runtime::value::{lemma_list_view, lemma_record_view, lemma_tuple_view, list_view, Val, Value};
use crate::text::{chars_of, find, first_of};

verus! {

/// Why a request names no component and method.
#[derive(Clone, Copy, Debug)]
pub enum RouteError {
    /// The path header is not `/<service>/<rpc>`.
    MalformedPath,
    /// The domain, service or version is not valid.
    InvalidName(Status),
}

/// The model of a route error.
pub enum RouteErrorView {
    MalformedPath,
    InvalidName(StatusView),
}

impl View for RouteError {
    type V = RouteErrorView;

    open spec fn view(&self) -> RouteErrorView {
        match self {
            RouteError::MalformedPath => RouteErrorView::MalformedPath,
            RouteError::InvalidName(s) => RouteErrorView::InvalidName(s@),
        }
    }
}

/// How a path header splits into the service and the method: it holds at least four
/// bytes and begins with `/`, after which exactly one more `/` separates the two.
pub open spec fn grpc_path_parts(path: Seq<char>) -> Option<(Seq<char>, Seq<char>)> {
    let rest = path.subrange(1, path.len() as int);
    let i = first_of(rest, '/');
    let rpc = rest.subrange(i + 1, rest.len() as int);
    if encode_utf8(path).len() < 4 || path[0] != '/' || i >= rest.len() || first_of(rpc, '/')
        < rpc.len() {
        None
    } else {
        Some((rest.subrange(0, i), rpc))
    }
}

/// What [`extract_version_and_rpc_names`] returns: the component and the method that the
/// authority, version and path headers name.
pub open spec fn route_spec(domain: Seq<char>, version: Seq<char>, path: Seq<char>) -> Result<
    (ComponentNameView, Seq<char>),
    RouteErrorView,
> {
    match grpc_path_parts(path) {
        None => Err(RouteErrorView::MalformedPath),
        Some((service, rpc)) => match domain_uuid_spec(encode_utf8(domain)) {
            Err(e) => Err(RouteErrorView::InvalidName(e)),
            Ok(d) => match component_name_spec(d, service, version) {
                Err(e) => Err(RouteErrorView::InvalidName(e)),
                Ok(c) => Ok((c, rpc)),
            },
        },
    }
}

/// The component and the method a request is for, from its authority (the domain),
/// version and path (`/<service>/<rpc>`) headers.
pub fn extract_version_and_rpc_names(domain: &str, version: &str, path: &str) -> (res: Result<
    (ComponentName, String),
    RouteError,
>)
    ensures
        match res {
            Ok((c, rpc)) => route_spec(domain@, version@, path@) == Ok::<
                (ComponentNameView, Seq<char>),
                RouteErrorView,
            >((c@, rpc@)),
            Err(e) => route_spec(domain@, version@, path@) == Err::<
                (ComponentNameView, Seq<char>),
                RouteErrorView,
            >(e@),
        },
{
    let chars = chars_of(path);
    let n = chars.len();
    let ghost s = path@;
    if path.as_bytes().len() < 4 || n == 0 || chars[0] != '/' {
        proof {
            if n == 0 {
                assert(encode_utf8(s) =~= Seq::<u8>::empty());
            }
        }
        return Err(RouteError::MalformedPath);
    }
    let ghost rest = s.subrange(1, n as int);
    assert(s.subrange(1, n as int) =~= rest);
    let i = find(chars.as_slice(), 1, '/');
    if i == n {
        return Err(RouteError::MalformedPath);
    }
    let j = find(chars.as_slice(), i + 1, '/');
    let ghost rpc = rest.subrange(i as int, rest.len() as int);
    assert(s.subrange(i + 1, n as int) =~= rpc);
    if j < n {
        return Err(RouteError::MalformedPath);
    }
    let service = path.substring_char(1, i);
    let method = path.substring_char(i + 1, n);
    assert(service@ =~= rest.subrange(0, i - 1));
    assert(method@ =~= rpc);
    let d = match DomainUuid::parse(domain) {
        Ok(d) => d,
        Err(e) => return Err(RouteError::InvalidName(e)),
    };
    match ComponentName::new(d, service, version) {
        Ok(c) => Ok((c, method.to_owned())),
        Err(e) => Err(RouteError::InvalidName(e)),
    }
}

/// What a data-plane URI names: the domain (its host), and from its path
/// `/<service>@<version>/<method>` the service, the version and the method.
#[derive(Debug)]
pub struct DataPlaneRoute {
    pub domain: String,
    pub service: String,
    pub version: String,
    pub method: String,
}

/// The model of a data-plane route.
pub struct DataPlaneRouteView {
    pub domain: Seq<char>,
    pub service: Seq<char>,
    pub version: Seq<char>,
    pub method: Seq<char>,
}

impl View for DataPlaneRoute {
    type V = DataPlaneRouteView;

    open spec fn view(&self) -> DataPlaneRouteView {
        DataPlaneRouteView {
            domain: self.domain@,
            service: self.service@,
            version: self.version@,
            method: self.method@,
        }
    }
}

/// What [`data_plane_route`] returns: the parts of the path after its leading `/`, split
/// at the first `/` into the component and the method (anything after a further `/` is
/// left out), and the component split at its first `@` into the service and the version
/// (likewise); or the message of the bad request.
pub open spec fn data_plane_route_spec(host: Option<Seq<char>>, path: Seq<char>) -> Result<
    DataPlaneRouteView,
    Seq<char>,
> {
    let rest = path.subrange(1, path.len() as int);
    let i = first_of(rest, '/');
    let component = rest.subrange(0, i);
    let after = rest.subrange(i + 1, rest.len() as int);
    let method = after.subrange(0, first_of(after, '/'));
    let j = first_of(component, '@');
    let service = component.subrange(0, j);
    let more = component.subrange(j + 1, component.len() as int);
    let version = more.subrange(0, first_of(more, '@'));
    match host {
        None => Err("Missing host in URI"@),
        Some(domain) => if i >= rest.len() {
            Err("Missing method name in URI"@)
        } else if j >= component.len() {
            Err("Missing version in URI"@)
        } else {
            Ok(DataPlaneRouteView { domain, service, version, method })
        },
    }
}

/// The first part of `s` from `from` up to the next `c` (or its end), and where it ends.
fn part_until<'a>(s: &'a str, chars: &Vec<char>, from: usize, c: char) -> (r: (&'a str, usize))
    requires
        from <= chars@.len(),
        chars@ == s@,
    ensures
        from <= r.1 <= chars@.len(),
        r.1 - from == first_of(s@.subrange(from as int, s@.len() as int), c),
        r.0@ == s@.subrange(from as int, r.1 as int),
{
    let end = find(chars.as_slice(), from, c);
    (s.substring_char(from, end), end)
}

/// The domain, service, version and method a data-plane request is for, from the host and
/// the path (`/<service>@<version>/<method>`) of its URI; or the message of the bad
/// request to answer.
pub fn data_plane_route(host: Option<&str>, path: &str) -> (res: Result<DataPlaneRoute, &'static str>)
    requires
        path@.len() >= 1,
        path@[0] == '/',
    ensures
        match res {
            Ok(r) => data_plane_route_spec(opt_text(host), path@) == Ok::<DataPlaneRouteView, Seq<char>>(
                r@,
            ),
            Err(m) => data_plane_route_spec(opt_text(host), path@) == Err::<
                DataPlaneRouteView,
                Seq<char>,
            >(m@),
        },
{
    let domain = match host {
        None => return Err("Missing host in URI"),
        Some(d) => d,
    };
    let chars = chars_of(path);
    let n = chars.len();
    let ghost s = path@;
    let ghost rest = s.subrange(1, n as int);
    let (component, i) = part_until(path, &chars, 1, '/');
    assert(s.subrange(1, n as int) =~= rest);
    assert(component@ =~= rest.subrange(0, i - 1));
    if i == n {
        return Err("Missing method name in URI");
    }
    let (method, _) = part_until(path, &chars, i + 1, '/');
    let ghost after = rest.subrange(i as int, rest.len() as int);
    assert(s.subrange(i + 1, n as int) =~= after);
    assert(method@ =~= after.subrange(0, first_of(after, '/')));
    let cchars = chars_of(component);
    let m = cchars.len();
    let (service, j) = part_until(component, &cchars, 0, '@');
    assert(component@.subrange(0, m as int) =~= component@);
    if j == m {
        return Err("Missing version in URI");
    }
    let (version, _) = part_until(component, &cchars, j + 1, '@');
    let ghost more = component@.subrange(j + 1, m as int);
    assert(version@ =~= more.subrange(0, first_of(more, '@')));
    Ok(DataPlaneRoute {
        domain: domain.to_owned(),
        service: service.to_owned(),
        version: version.to_owned(),
        method: method.to_owned(),
    })
}

/// The text of an optional string.
pub open spec fn opt_text(o: Option<&str>) -> Option<Seq<char>> {
    match o {
        Some(s) => Some(s@),
        None => None,
    }
}

/// The methods of the runtime service that its server dispatches.
#[derive(Clone, Copy, Debug, PartialEq, Eq, Structural)]
pub enum RuntimeRoute {
    Version,
    RunPodSandbox,
    /// Any other path: answered with the gRPC status `Unimplemented` (12).
    Unimplemented,
}

/// The method of the runtime service a request path is for.
pub fn runtime_service_route(path: &str) -> (r: RuntimeRoute)
    ensures
        path@ == "/runtime.v1.RuntimeService/Version"@ ==> r == RuntimeRoute::Version,
        path@ == "/runtime.v1.RuntimeService/RunPodSandbox"@ ==> r == RuntimeRoute::RunPodSandbox,
        path@ != "/runtime.v1.RuntimeService/Version"@ && path@
            != "/runtime.v1.RuntimeService/RunPodSandbox"@ ==> r == RuntimeRoute::Unimplemented,
{
    let p = path.to_owned();
    let version = String::from_str("/runtime.v1.RuntimeService/Version");
    let run = String::from_str("/runtime.v1.RuntimeService/RunPodSandbox");
    proof {
        reveal_strlit("/runtime.v1.RuntimeService/Version");
        reveal_strlit("/runtime.v1.RuntimeService/RunPodSandbox");
        assert(version@.len() != run@.len());
    }
    if p == version {
        RuntimeRoute::Version
    } else if p == run {
        RuntimeRoute::RunPodSandbox
    } else {
        RuntimeRoute::Unimplemented
    }
}

/// The gRPC status code of a request no method of the service takes (`Unimplemented`).
pub fn unimplemented_status_code() -> (c: i32)
    ensures
        c == 12,
{
    12
}

/// The request headers as text: each key, with its value if it is visible ASCII.
pub open spec fn headers_view(headers: Seq<(String, Option<String>)>) -> Seq<(Seq<char>, Option<Seq<char>>)> {
    Seq::new(
        headers.len(),
        |i: int|
            (
                headers[i].0@,
                match headers[i].1 {
                    Some(v) => Some(v@),
                    None => None,
                },
            ),
    )
}

/// The headers a component is handed: a `(key, value)` tuple of strings for each header
/// with a readable value, in order; the others are left out.
pub open spec fn header_values(headers: Seq<(Seq<char>, Option<Seq<char>>)>) -> Seq<Value>
    decreases headers.len(),
{
    if headers.len() == 0 {
        seq![]
    } else {
        let rest = header_values(headers.drop_last());
        match headers.last().1 {
            Some(v) => rest.push(
                Value::Tuple(seq![
                    Value::String(encode_utf8(headers.last().0)),
                    Value::String(encode_utf8(v)),
                ]),
            ),
            None => rest,
        }
    }
}

/// The context a component method is called with: a record whose one field, `headers`,
/// lists the request's readable headers.
pub open spec fn request_context(headers: Seq<(Seq<char>, Option<Seq<char>>)>) -> Value {
    Value::Record(seq![("headers"@, Value::List(header_values(headers)))])
}

/// The bytes of a string.
fn bytes_of(s: &str) -> (b: Vec<u8>)
    ensures
        b@ == encode_utf8(s@),
{
    let bytes = s.as_bytes();
    let mut b: Vec<u8> = Vec::new();
    let mut i: usize = 0;
    while i < bytes.len()
        invariant
            i <= bytes@.len(),
            bytes@ == encode_utf8(s@),
            b@ == bytes@.take(i as int),
        decreases bytes@.len() - i,
    {
        b.push(bytes[i]);
        assert(bytes@.take(i + 1) =~= bytes@.take(i as int).push(bytes@[i as int]));
        i = i + 1;
    }
    assert(bytes@.take(i as int) =~= bytes@);
    b
}

/// The parameters a component method is called with: the context built from the request
/// headers (see [`request_context`]), then the decoded request.
pub fn request_parameters(headers: &Vec<(String, Option<String>)>, request: Val) -> (params: Vec<Val>)
    ensures
        params@.len() == 2,
        params@[0]@ == request_context(headers_view(headers@)),
        params@[1]@ == request@,
{
    let ghost hv = headers_view(headers@);
    let mut items: Vec<Val> = Vec::new();
    let mut i: usize = 0;
    while i < headers.len()
        invariant
            i <= headers@.len(),
            hv == headers_view(headers@),
            list_view(items@) == header_values(hv.take(i as int)),
        decreases headers@.len() - i,
    {
        let ghost before = list_view(items@);
        assert(hv.take(i + 1).drop_last() =~= hv.take(i as int));
        match &headers[i].1 {
            Some(value) => {
                let mut pair: Vec<Val> = Vec::new();
                pair.push(Val::String(bytes_of(headers[i].0.as_str())));
                pair.push(Val::String(bytes_of(value.as_str())));
                proof {
                    lemma_tuple_view(pair);
                    assert(list_view(pair@) =~= seq![
                        Value::String(encode_utf8(hv[i as int].0)),
                        Value::String(encode_utf8(value@)),
                    ]);
                }
                items.push(Val::Tuple(pair));
                assert(list_view(items@) =~= header_values(hv.take(i + 1)));
            },
            None => {
                assert(list_view(items@) =~= header_values(hv.take(i + 1)));
            },
        }
        i = i + 1;
    }
    assert(hv.take(i as int) =~= hv);
    let mut fields: Vec<(String, Val)> = Vec::new();
    let name = String::from_str("headers");
    proof {
        lemma_list_view(items);
    }
    fields.push((name, Val::List(items)));
    proof {
        lemma_record_view(fields);
        assert(Val::Record(fields)@ =~= request_context(hv)) by {
            assert(Val::Record(fields)@->Record_0 =~= seq![("headers"@, Value::List(header_values(hv)))]);
        }
    }
    let mut params: Vec<Val> = Vec::new();
    params.push(Val::Record(fields));
    params.push(request);
    params
}

} // verus!
