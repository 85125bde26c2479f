//! Utilities for dealing with service names, component names, and pod names.
//!
//! These types of names have significant syntactic overlap,
//! so they share a single permissive parsing function: [`Name::parse`],
//! which cheaply parses anything that *might* be any one of them.
//!
//! Once parsed, use the conversion functions to validate a name as a particular type.
//! These are:
//! - [`ServiceName`]
//! - [`ComponentName`]
//! - [`PodName`]

use vstd::prelude::*;

use crate::text::{
    lemma_hex_usize_roundtrip, lemma_split_name_parts, lemma_split_service_parts,
    lemma_version_chars, split_parts, alnum, chars_of, first_of, hex_string, hex_usize, is_alnum, is_valid_version,
    lemma_first_of2, opt_view, parse_hex_usize, push_hex, split_name, split_name_spec,
    valid_version, NameParts,
};

verus! {

pub const FULL_SERVICE_ERROR_MSG: &'static str = "Expected fully-qualified service name.";

pub const SERVICE_ERROR_MSG: &'static str = "Expected service name.";

pub const FULL_COMPONENT_ERROR_MSG: &'static str = "Expected fully-qualified component name.";

pub const COMPONENT_ERROR_MSG: &'static str = "Expected component name.";

pub const POD_ERROR_MSG: &'static str = "Expected pod ID.";

/// Maximum length (inclusive) for K8s labels values.
pub const K8S_LABEL_VALUE_MAX_LENGTH: usize = 63;

/// An error with a human-readable message.
#[derive(Debug)]
pub struct Error {
    pub msg: String,
}

impl Error {
    /// An error with just a message (no underlying cause).
    pub fn leaf(msg: &str) -> (e: Error)
        ensures
            e.msg@ == msg@,
    {
        Error { msg: msg.to_owned() }
    }

    /// An error whose message is `prefix` followed by `irritant`.
    fn with_irritant(prefix: &str, irritant: &str) -> (e: Error)
        ensures
            e.msg@ == prefix@ + irritant@,
    {
        let mut msg = prefix.to_owned();
        msg.append(irritant);
        Error { msg }
    }
}

/// Permissively [parses](Self::parse) a service / version name:
///     [ domain ':' ] service-name [ '@' version [ '#' pod-id ] ]
///
/// Use the conversion functions to validate and convert to particular name types.
pub struct Name<'a> {
    pub domain: Option<&'a str>,
    pub service: &'a str,
    pub version: Option<&'a str>,
    pub pod: Option<&'a str>,
}

impl<'a> View for Name<'a> {
    type V = NameParts;

    open spec fn view(&self) -> NameParts {
        NameParts {
            domain: opt_view(self.domain),
            service: self.service@,
            version: opt_view(self.version),
            pod: opt_view(self.pod),
        }
    }
}

// ---------------------------------------------------------------------------
// Validity of domains and service names
// ---------------------------------------------------------------------------

pub open spec fn is_path_char(c: char) -> bool {
    is_alnum(c) || c == '_' || c == '-' || c == '.'
}

/// Valid domains and service names
/// contain at least two non-empty parts separated by dots (`.`),
/// consist of ASCII alphanumerics, dashes, and underscores besides the dots,
/// start and end with alphanumerics,
/// and are at most 63 characters long.
pub open spec fn is_valid_dotted_path(s: Seq<char>) -> bool {
    &&& 1 <= s.len() <= K8S_LABEL_VALUE_MAX_LENGTH
    &&& is_alnum(s[0])
    &&& is_alnum(s[s.len() - 1])
    &&& forall|i: int| 0 <= i < s.len() ==> is_path_char(s[i])
    &&& exists|i: int| 0 <= i < s.len() && s[i] == '.'
    &&& forall|i: int| 0 <= i < s.len() - 1 ==> !#[trigger] double_dot_at(s, i)
}

pub open spec fn double_dot_at(s: Seq<char>, i: int) -> bool {
    s[i] == '.' && s[i + 1] == '.'
}

/// Predicate for valid domain and service names: see [`is_valid_dotted_path`].
fn valid_dotted_path(name: &str) -> (b: bool)
    ensures
        b == is_valid_dotted_path(name@),
{
    let s = chars_of(name);
    let n = s.len();
    if n < 1 || n > K8S_LABEL_VALUE_MAX_LENGTH {
        return false;
    }
    if !alnum(s[0]) || !alnum(s[n - 1]) {
        return false;
    }
    let mut has_dot = false;
    let mut i: usize = 0;
    while i < n
        invariant
            0 <= i <= n,
            n == s.len(),
            s@ == name@,
            forall|j: int| 0 <= j < i ==> is_path_char(s@[j]),
            has_dot <==> exists|j: int| 0 <= j < i && s@[j] == '.',
            forall|j: int| 0 <= j < i - 1 ==> !#[trigger] double_dot_at(s@, j),
        decreases n - i,
    {
        let c = s[i];
        if !(alnum(c) || c == '_' || c == '-' || c == '.') {
            return false;
        }
        if c == '.' {
            if i > 0 && s[i - 1] == '.' {
                assert(double_dot_at(s@, i - 1));
                return false;
            }
            has_dot = true;
        }
        i = i + 1;
    }
    has_dot
}

// ---------------------------------------------------------------------------
// Default domains
// ---------------------------------------------------------------------------

/// The dot-separated parts of `s`, in order (always at least one, possibly empty).
pub open spec fn split_dots(s: Seq<char>) -> Seq<Seq<char>>
    decreases s.len(),
{
    let i = first_of(s, '.');
    if i >= s.len() || i < 0 {
        seq![s]
    } else {
        seq![s.subrange(0, i)] + split_dots(s.subrange(i + 1, s.len() as int))
    }
}

/// The parts joined with dots between them.
pub open spec fn join_dots(parts: Seq<Seq<char>>) -> Seq<char>
    decreases parts.len(),
{
    if parts.len() == 0 {
        Seq::empty()
    } else if parts.len() == 1 {
        parts[0]
    } else {
        join_dots(parts.drop_last()) + seq!['.'] + parts.last()
    }
}

/// The domain inferred from a service name:
/// every dot-separated part but the last, in reverse order, joined with dots
/// (`com.example.Service` becomes `example.com`).
pub open spec fn default_domain(service: Seq<char>) -> Seq<char> {
    let parts = split_dots(service);
    join_dots(Seq::new((parts.len() - 1) as nat, |t: int| parts[parts.len() - 2 - t]))
}

proof fn lemma_split_dots_step(s: Seq<char>, start: int, i: int)
    requires
        0 <= start <= i < s.len(),
        s[i] == '.',
        forall|j: int| start <= j < i ==> s[j] != '.',
    ensures
        split_dots(s.subrange(start, s.len() as int)) == seq![s.subrange(start, i)] + split_dots(
            s.subrange(i + 1, s.len() as int),
        ),
{
    let t = s.subrange(start, s.len() as int);
    assert forall|j: int| 0 <= j < i - start implies t[j] != '.' && t[j] != '.' by {
        assert(t[j] == s[start + j]);
    }
    assert(t[i - start] == s[i]);
    lemma_first_of2(t, '.', '.', i - start);
    assert(t.subrange(0, i - start) =~= s.subrange(start, i));
    assert(t.subrange(i - start + 1, t.len() as int) =~= s.subrange(i + 1, s.len() as int));
}

proof fn lemma_split_dots_last(s: Seq<char>, start: int)
    requires
        0 <= start <= s.len(),
        forall|j: int| start <= j < s.len() ==> s[j] != '.',
    ensures
        split_dots(s.subrange(start, s.len() as int)) == seq![s.subrange(start, s.len() as int)],
{
    let t = s.subrange(start, s.len() as int);
    assert forall|j: int| 0 <= j < t.len() implies t[j] != '.' && t[j] != '.' by {
        assert(t[j] == s[start + j]);
    }
    lemma_first_of2(t, '.', '.', t.len() as int);
}

/// Whether `s` holds no dot.
pub open spec fn no_dots(s: Seq<char>) -> bool {
    forall|j: int| 0 <= j < s.len() ==> s[j] != '.'
}

/// A text without dots is a single part.
proof fn lemma_split_dots_single(s: Seq<char>)
    requires
        no_dots(s),
    ensures
        split_dots(s) == seq![s],
{
    lemma_first_of2(s, '.', '.', s.len() as int);
}

/// Splitting at a dot splits both sides: the parts of `a.b` are those of `a`, then those
/// of `b`.
proof fn lemma_split_dots_concat(a: Seq<char>, b: Seq<char>)
    ensures
        split_dots(a + seq!['.'] + b) == split_dots(a) + split_dots(b),
    decreases a.len(),
{
    let s = a + seq!['.'] + b;
    crate::text::lemma_first_of2_props(a, '.', '.');
    let i = first_of(a, '.');
    if i >= a.len() {
        lemma_first_of2(s, '.', '.', a.len() as int);
        assert(s.subrange(0, a.len() as int) =~= a);
        assert(s.subrange(a.len() as int + 1, s.len() as int) =~= b);
        lemma_split_dots_single(a);
    } else {
        assert forall|j: int| 0 <= j < i implies s[j] != '.' by {
            assert(s[j] == a[j]);
        }
        assert(s[i] == a[i]);
        lemma_first_of2(s, '.', '.', i);
        let a2 = a.subrange(i + 1, a.len() as int);
        assert(s.subrange(0, i) =~= a.subrange(0, i));
        assert(s.subrange(i + 1, s.len() as int) =~= a2 + seq!['.'] + b);
        lemma_split_dots_concat(a2, b);
        assert(split_dots(a) == seq![a.subrange(0, i)] + split_dots(a2));
        assert(split_dots(s) =~= split_dots(a) + split_dots(b));
    }
}

/// Joining parts without dots and splitting again gives the parts back.
proof fn lemma_split_join(q: Seq<Seq<char>>)
    requires
        q.len() >= 1,
        forall|k: int| 0 <= k < q.len() ==> no_dots(#[trigger] q[k]),
    ensures
        split_dots(join_dots(q)) == q,
    decreases q.len(),
{
    if q.len() == 1 {
        assert(no_dots(q[0]));
        lemma_split_dots_single(q[0]);
        assert(seq![q[0]] =~= q);
    } else {
        let d = q.drop_last();
        assert forall|k: int| 0 <= k < d.len() implies no_dots(#[trigger] d[k]) by {
            assert(d[k] == q[k]);
        }
        lemma_split_join(d);
        lemma_split_dots_concat(join_dots(d), q.last());
        assert(no_dots(q[q.len() - 1]));
        lemma_split_dots_single(q.last());
        assert(d + seq![q.last()] =~= q);
    }
}

/// The parts of a text hold no dots.
proof fn lemma_split_dots_parts(s: Seq<char>)
    ensures
        split_dots(s).len() >= 1,
        forall|k: int| 0 <= k < split_dots(s).len() ==> no_dots(#[trigger] split_dots(s)[k]),
    decreases s.len(),
{
    crate::text::lemma_first_of2_props(s, '.', '.');
    let i = first_of(s, '.');
    if i < s.len() {
        let r = s.subrange(i + 1, s.len() as int);
        lemma_split_dots_parts(r);
        let p = split_dots(s);
        assert(p == seq![s.subrange(0, i)] + split_dots(r));
        assert forall|k: int| 0 <= k < p.len() implies no_dots(#[trigger] p[k]) by {
            if k == 0 {
                assert forall|j: int| 0 <= j < p[0].len() implies p[0][j] != '.' by {
                    assert(p[0][j] == s[j]);
                }
            } else {
                assert(p[k] == split_dots(r)[k - 1]);
            }
        }
    }
}

/// The domain inferred from a dotted service name is made of all its parts but the last,
/// in reverse order: its own parts are exactly those (`a.b.c.D` gives `c.b.a`). A service
/// name without a dot has the empty domain.
pub proof fn lemma_default_domain_parts(service: Seq<char>)
    ensures
        split_dots(service).len() >= 2 ==> split_dots(default_domain(service)) == split_dots(
            service,
        ).drop_last().reverse(),
        split_dots(service).len() == 1 ==> default_domain(service) == Seq::<char>::empty(),
{
    let p = split_dots(service);
    lemma_split_dots_parts(service);
    let q = Seq::new((p.len() - 1) as nat, |t: int| p[p.len() - 2 - t]);
    assert(q =~= p.drop_last().reverse());
    if p.len() >= 2 {
        assert forall|k: int| 0 <= k < q.len() implies no_dots(#[trigger] q[k]) by {
            assert(q[k] == p[p.len() - 2 - k]);
        }
        lemma_split_join(q);
    } else {
        assert(q.len() == 0);
    }
}

/// Positions of the dot-separated parts of `s`, as (start, end) pairs.
fn dot_parts(s: &[char]) -> (parts: Vec<(usize, usize)>)
    ensures
        parts@.len() == split_dots(s@).len(),
        forall|k: int|
            0 <= k < parts@.len() ==> {
                let (a, b) = #[trigger] parts@[k];
                &&& a <= b <= s.len()
                &&& s@.subrange(a as int, b as int) == split_dots(s@)[k]
            },
{
    let n = s.len();
    let mut parts: Vec<(usize, usize)> = Vec::new();
    let mut start: usize = 0;
    let mut i: usize = 0;
    assert(s@.subrange(0, n as int) =~= s@);
    while i < n
        invariant
            0 <= start <= i <= n,
            n == s.len(),
            forall|j: int| start <= j < i ==> s@[j] != '.',
            split_dots(s@) == Seq::new(
                parts@.len(),
                |k: int| s@.subrange(parts@[k].0 as int, parts@[k].1 as int),
            ) + split_dots(s@.subrange(start as int, n as int)),
            forall|k: int|
                0 <= k < parts@.len() ==> {
                    let (a, b) = #[trigger] parts@[k];
                    a <= b <= n
                },
        decreases n - i,
    {
        if s[i] == '.' {
            proof {
                lemma_split_dots_step(s@, start as int, i as int);
            }
            let ghost old_parts = parts@;
            parts.push((start, i));
            assert(Seq::new(
                parts@.len(),
                |k: int| s@.subrange(parts@[k].0 as int, parts@[k].1 as int),
            ) =~= Seq::new(
                old_parts.len(),
                |k: int| s@.subrange(old_parts[k].0 as int, old_parts[k].1 as int),
            ) + seq![s@.subrange(start as int, i as int)]);
            start = i + 1;
        }
        i = i + 1;
    }
    proof {
        lemma_split_dots_last(s@, start as int);
    }
    let ghost old_parts = parts@;
    parts.push((start, n));
    assert(split_dots(s@) =~= Seq::new(
        parts@.len(),
        |k: int| s@.subrange(parts@[k].0 as int, parts@[k].1 as int),
    ));
    parts
}


/// The domain inferred from a service name: see [`default_domain`].
fn default_domain_of(service: &str) -> (res: String)
    ensures
        res@ == default_domain(service@),
{
    let s = chars_of(service);
    let parts = dot_parts(s.as_slice());
    let m = parts.len();
    let ghost p = split_dots(service@);
    let ghost q = Seq::new((p.len() - 1) as nat, |t: int| p[p.len() - 2 - t]);
    assert(m >= 1) by {
        reveal_with_fuel(split_dots, 1);
    }
    let mut res = String::new();
    let mut t: usize = 0;
    while t + 1 < m
        invariant
            0 <= t < m,
            m == parts@.len(),
            m == p.len(),
            s@ == service@,
            p == split_dots(service@),
            q == Seq::new((p.len() - 1) as nat, |t: int| p[p.len() - 2 - t]),
            forall|k: int|
                0 <= k < parts@.len() ==> {
                    let (a, b) = #[trigger] parts@[k];
                    &&& a <= b <= s.len()
                    &&& s@.subrange(a as int, b as int) == p[k]
                },
            res@ == join_dots(q.take(t as int)),
        decreases m - t,
    {
        let (a, b) = parts[m - 2 - t];
        let ghost before = res@;
        if t > 0 {
            res.append(".");
            proof {
                reveal_strlit(".");
            }
        }
        let part = service.substring_char(a, b);
        res.append(part);
        proof {
            let next = q.take(t + 1);
            assert(next.drop_last() =~= q.take(t as int));
            assert(next.last() == p[m - 2 - t]);
            if t == 0 {
                assert(res@ =~= join_dots(next));
            } else {
                assert(res@ =~= join_dots(next));
            }
        }
        t = t + 1;
    }
    assert(q.take(t as int) =~= q);
    res
}

// ---------------------------------------------------------------------------
// Validated names
// ---------------------------------------------------------------------------

/// A service name:
///     domain ':' service-name
#[derive(Debug, PartialEq)]
pub struct ServiceName {
    pub domain: String,
    pub service: String,
}

pub struct ServiceNameView {
    pub domain: Seq<char>,
    pub service: Seq<char>,
}

impl View for ServiceName {
    type V = ServiceNameView;

    open spec fn view(&self) -> ServiceNameView {
        ServiceNameView { domain: self.domain@, service: self.service@ }
    }
}

/// A component name (versioned service):
///     domain ':' service-name '@' version
#[derive(Debug, PartialEq)]
pub struct ComponentName {
    pub service: ServiceName,
    pub version: String,
}

pub struct ComponentNameView {
    pub service: ServiceNameView,
    pub version: Seq<char>,
}

impl View for ComponentName {
    type V = ComponentNameView;

    open spec fn view(&self) -> ComponentNameView {
        ComponentNameView { service: self.service@, version: self.version@ }
    }
}

/// A pod / container name:
///     domain ':' service-name '@' version '#' pod-id
#[derive(Debug, PartialEq)]
pub struct PodName {
    pub component: ComponentName,
    pub pod: usize,
}

pub struct PodNameView {
    pub component: ComponentNameView,
    pub pod: usize,
}

impl View for PodName {
    type V = PodNameView;

    open spec fn view(&self) -> PodNameView {
        PodNameView { component: self.component@, pod: self.pod }
    }
}

/// A result seen through the views of its success value and its error message.
pub open spec fn result_view<T: View>(r: Result<T, Error>) -> Result<T::V, Seq<char>> {
    match r {
        Ok(t) => Ok(t@),
        Err(e) => Err(e.msg@),
    }
}

/// What [`ServiceName::new`] returns for a domain and a service name.
pub open spec fn service_name_spec(domain: Seq<char>, service: Seq<char>) -> Result<
    ServiceNameView,
    Seq<char>,
> {
    if !is_valid_dotted_path(domain) {
        Err("Invalid domain: "@ + domain)
    } else if !is_valid_dotted_path(service) {
        Err("Invalid service name: "@ + service)
    } else {
        Ok(ServiceNameView { domain, service })
    }
}

/// What [`ComponentName::new`] returns for a domain, a service name and a version.
pub open spec fn component_name_spec(
    domain: Seq<char>,
    service: Seq<char>,
    version: Seq<char>,
) -> Result<ComponentNameView, Seq<char>> {
    if !is_valid_version(version) {
        Err("Invalid version: "@ + version)
    } else {
        match service_name_spec(domain, service) {
            Ok(s) => Ok(ComponentNameView { service: s, version }),
            Err(m) => Err(m),
        }
    }
}

/// What [`PodName::new`] returns for a domain, a service name, a version and a pod ID.
pub open spec fn pod_name_spec(
    domain: Seq<char>,
    service: Seq<char>,
    version: Seq<char>,
    pod: Seq<char>,
) -> Result<PodNameView, Seq<char>> {
    match component_name_spec(domain, service, version) {
        Err(m) => Err(m),
        Ok(c) => match hex_usize(pod) {
            Some(p) => Ok(PodNameView { component: c, pod: p }),
            None => Err("Invalid pod ID: "@ + pod),
        },
    }
}

/// Textual form of a service name: `domain:service`.
pub open spec fn service_name_text(v: ServiceNameView) -> Seq<char> {
    v.domain + seq![':'] + v.service
}

/// Textual form of a component name: `domain:service@version`.
pub open spec fn component_name_text(v: ComponentNameView) -> Seq<char> {
    service_name_text(v.service) + seq!['@'] + v.version
}

/// Textual form of a pod name: `domain:service@version#POD` (upper-case hexadecimal pod ID).
pub open spec fn pod_name_text(v: PodNameView) -> Seq<char> {
    component_name_text(v.component) + seq!['#'] + hex_string(v.pod as nat, true)
}

impl ServiceName {
    pub fn new(domain: &str, service: &str) -> (res: Result<ServiceName, Error>)
        ensures
            result_view(res) == service_name_spec(domain@, service@),
    {
        if valid_dotted_path(domain) {
            if valid_dotted_path(service) {
                Ok(ServiceName { domain: domain.to_owned(), service: service.to_owned() })
            } else {
                Err(Error::with_irritant("Invalid service name: ", service))
            }
        } else {
            Err(Error::with_irritant("Invalid domain: ", domain))
        }
    }

    /// The textual form `domain:service`.
    pub fn to_string(&self) -> (s: String)
        ensures
            s@ == service_name_text(self@),
    {
        let mut s = self.domain.clone();
        s.append(":");
        s.append(self.service.as_str());
        proof {
            reveal_strlit(":");
        }
        assert(s@ =~= service_name_text(self@));
        s
    }
}

impl ComponentName {
    pub fn new(domain: &str, service: &str, version: &str) -> (res: Result<ComponentName, Error>)
        ensures
            result_view(res) == component_name_spec(domain@, service@, version@),
    {
        if valid_version(version) {
            match ServiceName::new(domain, service) {
                Ok(service) => Ok(ComponentName { service, version: version.to_owned() }),
                Err(e) => Err(e),
            }
        } else {
            Err(Error::with_irritant("Invalid version: ", version))
        }
    }

    /// The textual form `domain:service@version`.
    pub fn to_string(&self) -> (s: String)
        ensures
            s@ == component_name_text(self@),
    {
        let mut s = self.service.to_string();
        s.append("@");
        s.append(self.version.as_str());
        proof {
            reveal_strlit("@");
        }
        assert(s@ =~= component_name_text(self@));
        s
    }
}

impl PodName {
    pub fn new(domain: &str, service: &str, version: &str, pod: &str) -> (res: Result<
        PodName,
        Error,
    >)
        ensures
            result_view(res) == pod_name_spec(domain@, service@, version@, pod@),
    {
        let component = match ComponentName::new(domain, service, version) {
            Ok(c) => c,
            Err(e) => return Err(e),
        };
        match parse_hex_usize(pod) {
            Some(pod) => Ok(PodName { component, pod }),
            None => Err(Error::with_irritant("Invalid pod ID: ", pod)),
        }
    }

    /// The textual form `domain:service@version#POD`, with the pod ID in upper-case hexadecimal.
    pub fn to_string(&self) -> (s: String)
        ensures
            s@ == pod_name_text(self@),
    {
        let mut s = self.component.to_string();
        s.append("#");
        proof {
            reveal_strlit("#");
        }
        push_hex(&mut s, self.pod, true);
        assert(s@ =~= pod_name_text(self@));
        s
    }
}

// ---------------------------------------------------------------------------
// Conversions from permissively parsed names
// ---------------------------------------------------------------------------

/// The domain given explicitly, or else the one inferred from the service name.
pub open spec fn domain_or_default_spec(n: NameParts) -> Seq<char> {
    match n.domain {
        Some(d) => d,
        None => default_domain(n.service),
    }
}

pub open spec fn full_service_spec(n: NameParts) -> Result<ServiceNameView, Seq<char>> {
    match n.domain {
        Some(d) if n.version is None && n.pod is None => service_name_spec(d, n.service),
        _ => Err(FULL_SERVICE_ERROR_MSG@),
    }
}

pub open spec fn service_spec(n: NameParts) -> Result<ServiceNameView, Seq<char>> {
    if n.version is None && n.pod is None {
        service_name_spec(domain_or_default_spec(n), n.service)
    } else {
        Err(SERVICE_ERROR_MSG@)
    }
}

pub open spec fn full_component_spec(n: NameParts) -> Result<ComponentNameView, Seq<char>> {
    match (n.domain, n.version) {
        (Some(d), Some(v)) if n.pod is None => component_name_spec(d, n.service, v),
        _ => Err(FULL_COMPONENT_ERROR_MSG@),
    }
}

pub open spec fn component_spec(n: NameParts) -> Result<ComponentNameView, Seq<char>> {
    match n.version {
        Some(v) if n.pod is None => component_name_spec(domain_or_default_spec(n), n.service, v),
        _ => Err(COMPONENT_ERROR_MSG@),
    }
}

pub open spec fn pod_spec(n: NameParts) -> Result<PodNameView, Seq<char>> {
    match (n.domain, n.version, n.pod) {
        (Some(d), Some(v), Some(p)) => pod_name_spec(d, n.service, v, p),
        _ => Err(POD_ERROR_MSG@),
    }
}

/// The characters of a valid domain or service name are neither separators of a name
/// (`:`, `@`) nor of a pod ID (`#`).
proof fn lemma_dotted_path_chars(s: Seq<char>)
    requires
        is_valid_dotted_path(s),
    ensures
        forall|j: int| 0 <= j < s.len() ==> s[j] != ':' && s[j] != '@' && s[j] != '#',
{
    assert forall|j: int| 0 <= j < s.len() implies s[j] != ':' && s[j] != '@' && s[j] != '#' by {
        assert(is_path_char(s[j]));
    }
}

/// A valid version holds no `#`.
proof fn lemma_version_no_hash(v: Seq<char>)
    requires
        is_valid_version(v),
    ensures
        forall|j: int| 0 <= j < v.len() ==> v[j] != '#',
{
    lemma_version_chars(v);
    assert forall|j: int| 0 <= j < v.len() implies v[j] != '#' by {
        assert(is_alnum(v[j]) || v[j] == '.' || v[j] == '-');
    }
}

/// Parsing the text of a valid service name gives the name back.
pub proof fn lemma_service_name_roundtrip(v: ServiceNameView)
    requires
        is_valid_dotted_path(v.domain),
        is_valid_dotted_path(v.service),
    ensures
        full_service_spec(split_name_spec(service_name_text(v))) == Ok::<ServiceNameView, Seq<char>>(v),
{
    lemma_dotted_path_chars(v.domain);
    lemma_dotted_path_chars(v.service);
    lemma_split_service_parts(v.domain, v.service);
}

/// Parsing the text of a valid component name gives the name back.
pub proof fn lemma_component_name_roundtrip(v: ComponentNameView)
    requires
        is_valid_dotted_path(v.service.domain),
        is_valid_dotted_path(v.service.service),
        is_valid_version(v.version),
    ensures
        full_component_spec(split_name_spec(component_name_text(v))) == Ok::<
            ComponentNameView,
            Seq<char>,
        >(v),
{
    lemma_dotted_path_chars(v.service.domain);
    lemma_dotted_path_chars(v.service.service);
    lemma_version_no_hash(v.version);
    let e = Seq::<char>::empty();
    lemma_split_name_parts(v.service.domain, v.service.service, v.version, e);
    assert(component_name_text(v) =~= v.service.domain + seq![':'] + v.service.service + seq!['@']
        + v.version + e);
}

/// Parsing the text of a valid pod name gives the name back.
pub proof fn lemma_pod_name_roundtrip(v: PodNameView)
    requires
        is_valid_dotted_path(v.component.service.domain),
        is_valid_dotted_path(v.component.service.service),
        is_valid_version(v.component.version),
    ensures
        pod_spec(split_name_spec(pod_name_text(v))) == Ok::<PodNameView, Seq<char>>(v),
{
    let c = v.component;
    lemma_dotted_path_chars(c.service.domain);
    lemma_dotted_path_chars(c.service.service);
    lemma_version_no_hash(c.version);
    let h = hex_string(v.pod as nat, true);
    let tail = seq!['#'] + h;
    lemma_split_name_parts(c.service.domain, c.service.service, c.version, tail);
    assert(pod_name_text(v) =~= c.service.domain + seq![':'] + c.service.service + seq!['@']
        + c.version + tail);
    assert(tail.subrange(1, tail.len() as int) =~= h);
    lemma_hex_usize_roundtrip(v.pod, true);
}

impl<'a> Name<'a> {
    /// Permissively parse a service / version name:
    ///     [ domain ':' ] service-name [ '@' version [ '#' pod-id ] ]
    pub fn parse(full: &'a str) -> (res: Name<'a>)
        ensures
            res@ == split_name_spec(full@),
    {
        let (domain, service, version, pod) = split_name(full);
        Name { domain, service, version, pod }
    }

    /// Return the domain, if one was explicitly provided.
    /// Otherwise, return the inferred default domain based on the service name.
    fn domain_or_default(&self) -> (res: String)
        ensures
            res@ == domain_or_default_spec(self@),
    {
        match self.domain {
            Some(d) => d.to_owned(),
            None => default_domain_of(self.service),
        }
    }

    /// If the domain is explicitly present and valid,
    /// but the version and pod ID are absent,
    /// consume self and return an equivalent [`ServiceName`].
    pub fn full_service(self) -> (res: Result<ServiceName, Error>)
        ensures
            result_view(res) == full_service_spec(self@),
    {
        if let Some(domain) = self.domain {
            if self.version.is_none() && self.pod.is_none() {
                return ServiceName::new(domain, self.service);
            }
        }
        Err(Error::leaf(FULL_SERVICE_ERROR_MSG))
    }

    /// If the domain (or a default inferred from the service name) is valid,
    /// but the version and pod ID are absent,
    /// consume self and return an equivalent [`ServiceName`].
    pub fn service(self) -> (res: Result<ServiceName, Error>)
        ensures
            result_view(res) == service_spec(self@),
    {
        if self.version.is_none() && self.pod.is_none() {
            let domain = self.domain_or_default();
            return ServiceName::new(domain.as_str(), self.service);
        }
        Err(Error::leaf(SERVICE_ERROR_MSG))
    }

    /// If the domain and version are both explicitly present and valid,
    /// but the pod ID is absent,
    /// consume self and return an equivalent [`ComponentName`].
    pub fn full_component(self) -> (res: Result<ComponentName, Error>)
        ensures
            result_view(res) == full_component_spec(self@),
    {
        if let Some(domain) = self.domain {
            if let Some(version) = self.version {
                if self.pod.is_none() {
                    return ComponentName::new(domain, self.service, version);
                }
            }
        }
        Err(Error::leaf(FULL_COMPONENT_ERROR_MSG))
    }

    /// If the version is explicitly present and valid,
    /// and the domain (or a default inferred from the service name) is valid,
    /// but the pod ID is absent,
    /// consume self and return an equivalent [`ComponentName`].
    pub fn component(self) -> (res: Result<ComponentName, Error>)
        ensures
            result_view(res) == component_spec(self@),
    {
        if let Some(version) = self.version {
            if self.pod.is_none() {
                let domain = self.domain_or_default();
                return ComponentName::new(domain.as_str(), self.service, version);
            }
        }
        Err(Error::leaf(COMPONENT_ERROR_MSG))
    }

    /// If the domain, version, and pod ID are all explicitly present and valid,
    /// consume self and return an equivalent [`PodName`].
    /// Pod names are always fully-qualified.
    pub fn pod(self) -> (res: Result<PodName, Error>)
        ensures
            result_view(res) == pod_spec(self@),
    {
        if let Some(domain) = self.domain {
            if let Some(version) = self.version {
                if let Some(pod) = self.pod {
                    return PodName::new(domain, self.service, version, pod);
                }
            }
        }
        Err(Error::leaf(POD_ERROR_MSG))
    }
}

} // verus!
